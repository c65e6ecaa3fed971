use vstd::prelude::*;

use crate::errors::Error;
use crate::expression::Expression;
use crate::field::{Field, FieldView};
use crate::record_id::RecordId;
use crate::row::Row;
use crate::transform::Rows;

verus! {

/// A row holding the fields of `a` followed by the fields of `b`.
fn row_concat(a: &Row, b: &Row) -> (r: Row)
    ensures
        r@ =~= a@ + b@,
{
    let mut fields: Vec<Field> = Vec::new();
    let an = a.size();
    let mut i: usize = 0;
    while i < an
        invariant
            an == a@.len(),
            i <= an,
            fields@.len() == i,
            forall|x: int| 0 <= x < i ==> (#[trigger] fields@[x])@ == a@[x],
        decreases an - i,
    {
        fields.push(a.field_at(i).clone());
        i = i + 1;
    }
    let bn = b.size();
    let mut j: usize = 0;
    while j < bn
        invariant
            an == a@.len(),
            bn == b@.len(),
            j <= bn,
            fields@.len() == an + j,
            forall|x: int| 0 <= x < an ==> (#[trigger] fields@[x])@ == a@[x],
            forall|x: int| an <= x < an + j ==> (#[trigger] fields@[x])@ == b@[x - an],
        decreases bn - j,
    {
        fields.push(b.field_at(j).clone());
        j = j + 1;
    }
    let r = Row::new(fields);
    proof {
        assert(r@ =~= a@ + b@);
    }
    r
}

/// A row holding the fields of `a` followed by `width` nulls.
fn row_pad_nulls(a: &Row, width: usize) -> (r: Row)
    ensures
        r@.len() == a@.len() + width,
        r@.take(a@.len() as int) =~= a@,
        forall|x: int| a@.len() <= x < r@.len() ==> (#[trigger] r@[x]) is Null,
{
    let mut fields: Vec<Field> = Vec::new();
    let an = a.size();
    let mut i: usize = 0;
    while i < an
        invariant
            an == a@.len(),
            i <= an,
            fields@.len() == i,
            forall|x: int| 0 <= x < i ==> (#[trigger] fields@[x])@ == a@[x],
        decreases an - i,
    {
        fields.push(a.field_at(i).clone());
        i = i + 1;
    }
    let mut j: usize = 0;
    while j < width
        invariant
            an == a@.len(),
            j <= width,
            fields@.len() == an + j,
            forall|x: int| 0 <= x < an ==> (#[trigger] fields@[x])@ == a@[x],
            forall|x: int| an <= x < an + j ==> (#[trigger] fields@[x])@ is Null,
        decreases width - j,
    {
        fields.push(Field::Null);
        j = j + 1;
    }
    let r = Row::new(fields);
    proof {
        assert(r@.take(a@.len() as int) =~= a@);
    }
    r
}

/// A left row's fields followed by nulls for the whole right side.
pub open spec fn spec_pad(l: Seq<FieldView>, width: int) -> Seq<FieldView> {
    l + Seq::new(width as nat, |q: int| FieldView::Null)
}

/// The field-value equality never holds between a zero and a NaN pattern.
proof fn lemma_f32_zero_not_nan(b: u32)
    ensures
        !(crate::field::spec_f32_bits_is_zero(b) && crate::field::spec_f32_bits_is_nan(b)),
{
    assert(!(b & 0x7fffffff == 0 && ((b >> 23) & 0xff == 0xff && b & 0x7fffff != 0)))
        by (bit_vector);
}

/// Field-value equality is symmetric.
pub proof fn lemma_field_eq_symm(a: FieldView, b: FieldView)
    ensures
        crate::field::spec_field_eq(a, b) == crate::field::spec_field_eq(b, a),
{
}

/// Field-value equality is transitive.
pub proof fn lemma_field_eq_trans(a: FieldView, b: FieldView, c: FieldView)
    requires
        crate::field::spec_field_eq(a, b),
        crate::field::spec_field_eq(b, c),
    ensures
        crate::field::spec_field_eq(a, c),
{
    match (a, b, c) {
        (FieldView::Float(x), FieldView::Float(y), FieldView::Float(z)) => {
            lemma_f32_zero_not_nan(x);
            lemma_f32_zero_not_nan(y);
            lemma_f32_zero_not_nan(z);
        },
        _ => {},
    }
}

/// The joined views of the matching nested-loop pairs for one left row over
/// a prefix of the right side, or nothing when a predicate evaluation fails.
pub open spec fn spec_nlj_inner(
    lv: Seq<FieldView>,
    right: Seq<(RecordId, Row)>,
    predicate: Option<Expression>,
) -> Option<Seq<Seq<FieldView>>>
    decreases right.len(),
{
    if right.len() == 0 {
        Some(Seq::empty())
    } else {
        match spec_nlj_inner(lv, right.drop_last(), predicate) {
            Some(acc) => {
                let joined = lv + right.last().1@;
                match predicate {
                    Option::None => Some(acc.push(joined)),
                    Some(p) => match crate::expression::spec_eval(p, Some(joined)) {
                        crate::expression::EvalOutcome::Value(FieldView::Boolean(true)) => Some(
                            acc.push(joined),
                        ),
                        crate::expression::EvalOutcome::Value(_) => Some(acc),
                        crate::expression::EvalOutcome::Failure => Option::None,
                    },
                }
            },
            Option::None => Option::None,
        }
    }
}

/// The nested-loop join's output views over a prefix of the left side: each
/// left row's matches, or one null-padded row when an outer join finds none.
pub open spec fn spec_nlj(
    left: Seq<(RecordId, Row)>,
    right: Seq<(RecordId, Row)>,
    right_size: int,
    predicate: Option<Expression>,
    outer: bool,
) -> Option<Seq<Seq<FieldView>>>
    decreases left.len(),
{
    if left.len() == 0 {
        Some(Seq::empty())
    } else {
        match spec_nlj(left.drop_last(), right, right_size, predicate, outer) {
            Some(acc) => match spec_nlj_inner(left.last().1@, right, predicate) {
                Some(ms) => if ms.len() == 0 && outer {
                    Some(acc.push(spec_pad(left.last().1@, right_size)))
                } else {
                    Some(acc + ms)
                },
                Option::None => Option::None,
            },
            Option::None => Option::None,
        }
    }
}

/// The output rows' views, in order.
pub open spec fn spec_row_views(rows: Seq<(RecordId, Row)>) -> Seq<Seq<FieldView>> {
    Seq::new(rows.len(), |i: int| rows[i].1@)
}

/// A failed inner evaluation dooms the whole right prefix recursion.
proof fn lemma_nlj_inner_none_extends(
    lv: Seq<FieldView>,
    right: Seq<(RecordId, Row)>,
    predicate: Option<Expression>,
    m: int,
)
    requires
        0 <= m <= right.len(),
        spec_nlj_inner(lv, right.take(m), predicate) is None,
    ensures
        spec_nlj_inner(lv, right, predicate) is None,
    decreases right.len() - m,
{
    if m == right.len() {
        assert(right.take(m) =~= right);
    } else {
        assert(right.take(m + 1).drop_last() =~= right.take(m));
        lemma_nlj_inner_none_extends(lv, right, predicate, m + 1);
    }
}

/// A failed left row dooms the whole left prefix recursion.
proof fn lemma_nlj_none_extends(
    left: Seq<(RecordId, Row)>,
    right: Seq<(RecordId, Row)>,
    right_size: int,
    predicate: Option<Expression>,
    outer: bool,
    m: int,
)
    requires
        0 <= m <= left.len(),
        spec_nlj(left.take(m), right, right_size, predicate, outer) is None,
    ensures
        spec_nlj(left, right, right_size, predicate, outer) is None,
    decreases left.len() - m,
{
    if m == left.len() {
        assert(left.take(m) =~= left);
    } else {
        assert(left.take(m + 1).drop_last() =~= left.take(m));
        lemma_nlj_none_extends(left, right, right_size, predicate, outer, m + 1);
    }
}

/// Joins by scanning the whole right side for every left row, keeping the
/// concatenations the predicate accepts; with `outer`, a left row with no
/// match comes back padded with nulls for the right side's width. Every
/// emitted record id is the invalid sentinel.
pub fn nested_loop(
    left: Rows,
    right: Rows,
    right_size: usize,
    predicate: Option<Expression>,
    outer: bool,
) -> (r: Result<Rows, Error>)
    requires
        forall|y: int| 0 <= y < right@.len() ==> (#[trigger] right@[y]).1@.len() == right_size,
    ensures
        r is Ok <==> spec_nlj(left@, right@, right_size as int, predicate, outer) is Some,
        r matches Ok(v) ==> spec_nlj(left@, right@, right_size as int, predicate, outer) == Some(
            spec_row_views(v@),
        ),
        r matches Ok(v) ==> forall|x: int|
            0 <= x < v@.len() ==> (#[trigger] v@[x]).0 == (RecordId {
                page_id: crate::INVALID_PID,
                slot_id: 0,
            }),
{
    let mut out: Rows = Vec::new();
    let ln = left.len();
    let rn = right.len();
    let invalid_rid = RecordId::invalid();
    let mut i: usize = 0;
    proof {
        assert(left@.take(0) =~= Seq::<(RecordId, Row)>::empty());
        assert(spec_row_views(out@) =~= Seq::<Seq<FieldView>>::empty());
    }
    while i < ln
        invariant
            ln == left@.len(),
            rn == right@.len(),
            forall|y: int| 0 <= y < rn ==> (#[trigger] right@[y]).1@.len() == right_size,
            invalid_rid == (RecordId { page_id: crate::INVALID_PID, slot_id: 0 }),
            i <= ln,
            spec_nlj(left@.take(i as int), right@, right_size as int, predicate, outer) == Some(
                spec_row_views(out@),
            ),
            forall|x: int| 0 <= x < out@.len() ==> (#[trigger] out@[x]).0 == invalid_rid,
        decreases ln - i,
    {
        proof {
            assert(left@.take(i as int + 1).drop_last() =~= left@.take(i as int));
            assert(left@.take(i as int + 1).last() == left@[i as int]);
        }
        let ghost chunk_base = out@.len() as int;
        let mut matched = false;
        let mut j: usize = 0;
        proof {
            assert(right@.take(0) =~= Seq::<(RecordId, Row)>::empty());
            assert(spec_row_views(out@).skip(chunk_base) =~= Seq::<Seq<FieldView>>::empty());
        }
        while j < rn
            invariant
                ln == left@.len(),
                rn == right@.len(),
                forall|y: int| 0 <= y < rn ==> (#[trigger] right@[y]).1@.len() == right_size,
                invalid_rid == (RecordId { page_id: crate::INVALID_PID, slot_id: 0 }),
                i < ln,
                j <= rn,
                0 <= chunk_base <= out@.len(),
                spec_row_views(out@).take(chunk_base) == spec_row_views(out@.take(chunk_base)),
                spec_nlj(left@.take(i as int), right@, right_size as int, predicate, outer)
                    == Some(spec_row_views(out@.take(chunk_base))),
                spec_nlj_inner(left@[i as int].1@, right@.take(j as int), predicate) == Some(
                    spec_row_views(out@).skip(chunk_base),
                ),
                matched <==> out@.len() > chunk_base,
                forall|x: int| 0 <= x < out@.len() ==> (#[trigger] out@[x]).0 == invalid_rid,
            decreases rn - j,
        {
            proof {
                assert(right@.take(j as int + 1).drop_last() =~= right@.take(j as int));
                assert(right@.take(j as int + 1).last() == right@[j as int]);
            }
            let joined = row_concat(&left[i].1, &right[j].1);
            let keep = match &predicate {
                Some(p) => match p.evaluate(Some(&joined)) {
                    Ok(Field::Boolean(true)) => true,
                    Ok(_) => false,
                    Err(e) => {
                        proof {
                            assert(spec_nlj_inner(
                                left@[i as int].1@,
                                right@.take(j as int + 1),
                                predicate,
                            ) is None);
                            lemma_nlj_inner_none_extends(
                                left@[i as int].1@,
                                right@,
                                predicate,
                                j as int + 1,
                            );
                            assert(spec_nlj(
                                left@.take(i as int + 1),
                                right@,
                                right_size as int,
                                predicate,
                                outer,
                            ) is None);
                            lemma_nlj_none_extends(
                                left@,
                                right@,
                                right_size as int,
                                predicate,
                                outer,
                                i as int + 1,
                            );
                        }
                        return Err(e);
                    },
                },
                Option::None => true,
            };
            if keep {
                matched = true;
                let ghost before = out@;
                out.push((invalid_rid, joined));
                proof {
                    assert(spec_row_views(out@).skip(chunk_base) =~= spec_row_views(
                        before,
                    ).skip(chunk_base).push(left@[i as int].1@ + right@[j as int].1@));
                }
            }
            proof {
                assert(spec_row_views(out@).take(chunk_base) =~= spec_row_views(
                    out@.take(chunk_base),
                ));
            }
            j = j + 1;
        }
        proof {
            assert(right@.take(rn as int) =~= right@);
        }
        if outer && !matched {
            let padded = row_pad_nulls(&left[i].1, right_size);
            proof {
                assert(padded@ =~= spec_pad(left@[i as int].1@, right_size as int));
            }
            out.push((invalid_rid, padded));
            proof {
                assert(spec_row_views(out@) =~= spec_row_views(out@.take(chunk_base)).push(
                    spec_pad(left@[i as int].1@, right_size as int),
                ));
            }
        } else {
            proof {
                assert(spec_row_views(out@) =~= spec_row_views(out@.take(chunk_base))
                    + spec_row_views(out@).skip(chunk_base));
            }
        }
        i = i + 1;
    }
    proof {
        assert(left@.take(ln as int) =~= left@);
    }
    Ok(out)
}

} // verus!

verus! {

/// Whether every right row reaches the join column.
pub open spec fn spec_hash_ok(right: Seq<(RecordId, Row)>, rc: int) -> bool {
    forall|y: int| 0 <= y < right.len() ==> rc < (#[trigger] right[y]).1@.len()
}

/// The views of the right rows whose join key is defined and equal to the
/// given key, in right order.
pub open spec fn spec_hash_matches(right: Seq<(RecordId, Row)>, key: FieldView, rc: int) -> Seq<
    Seq<FieldView>,
>
    decreases right.len(),
{
    if right.len() == 0 {
        Seq::empty()
    } else {
        let acc = spec_hash_matches(right.drop_last(), key, rc);
        let rv = right.last().1@;
        if rc < rv.len() && !crate::field::spec_field_is_undefined(rv[rc])
            && crate::field::spec_field_eq(rv[rc], key) {
            acc.push(rv)
        } else {
            acc
        }
    }
}

/// The hash join's output views for a prefix of the left side.
pub open spec fn spec_hash_probe(
    left: Seq<(RecordId, Row)>,
    right: Seq<(RecordId, Row)>,
    lc: int,
    rc: int,
    right_size: int,
    outer: bool,
) -> Option<Seq<Seq<FieldView>>>
    decreases left.len(),
{
    if left.len() == 0 {
        Some(Seq::empty())
    } else {
        match spec_hash_probe(left.drop_last(), right, lc, rc, right_size, outer) {
            Some(acc) => {
                let lv = left.last().1@;
                if lc >= lv.len() {
                    Option::None
                } else {
                    let lk = lv[lc];
                    let ms = spec_hash_matches(right, lk, rc);
                    if crate::field::spec_field_is_undefined(lk) || ms.len() == 0 {
                        if outer {
                            Some(acc.push(spec_pad(lv, right_size)))
                        } else {
                            Some(acc)
                        }
                    } else {
                        Some(acc + Seq::new(ms.len(), |q: int| lv + ms[q]))
                    }
                }
            },
            Option::None => Option::None,
        }
    }
}

/// The hash join's output views: nothing when a row misses its join column.
pub open spec fn spec_hash(
    left: Seq<(RecordId, Row)>,
    right: Seq<(RecordId, Row)>,
    lc: int,
    rc: int,
    right_size: int,
    outer: bool,
) -> Option<Seq<Seq<FieldView>>> {
    if !spec_hash_ok(right, rc) {
        Option::None
    } else {
        spec_hash_probe(left, right, lc, rc, right_size, outer)
    }
}

/// Matching is a class property: keys equal as field values match the same
/// right rows.
proof fn lemma_matches_congruent(right: Seq<(RecordId, Row)>, k1: FieldView, k2: FieldView, rc: int)
    requires
        crate::field::spec_field_eq(k1, k2),
    ensures
        spec_hash_matches(right, k1, rc) == spec_hash_matches(right, k2, rc),
    decreases right.len(),
{
    if right.len() > 0 {
        lemma_matches_congruent(right.drop_last(), k1, k2, rc);
        let rv = right.last().1@;
        if rc < rv.len() {
            lemma_field_eq_symm(rv[rc], k1);
            lemma_field_eq_symm(rv[rc], k2);
            lemma_field_eq_symm(k1, k2);
            if crate::field::spec_field_eq(rv[rc], k1) {
                lemma_field_eq_trans(rv[rc], k1, k2);
            }
            if crate::field::spec_field_eq(rv[rc], k2) {
                lemma_field_eq_trans(k1, k2, rv[rc]);
                lemma_field_eq_symm(k1, rv[rc]);
            }
        }
    }
}

/// A left row that misses its join column dooms the probe recursion.
proof fn lemma_hash_probe_none_extends(
    left: Seq<(RecordId, Row)>,
    right: Seq<(RecordId, Row)>,
    lc: int,
    rc: int,
    right_size: int,
    outer: bool,
    m: int,
)
    requires
        0 <= m <= left.len(),
        spec_hash_probe(left.take(m), right, lc, rc, right_size, outer) is None,
    ensures
        spec_hash_probe(left, right, lc, rc, right_size, outer) is None,
    decreases left.len() - m,
{
    if m == left.len() {
        assert(left.take(m) =~= left);
    } else {
        assert(left.take(m + 1).drop_last() =~= left.take(m));
        lemma_hash_probe_none_extends(left, right, lc, rc, right_size, outer, m + 1);
    }
}

/// Joins by collecting the right rows under their join-key values, leaving
/// out rows whose key is undefined (null or a float NaN), then probing with
/// each left row's key: matches come out as concatenations in right order,
/// and with `outer` an unmatched left row comes back padded with nulls.
pub fn hash(
    left: Rows,
    left_column: usize,
    right: Rows,
    right_column: usize,
    right_size: usize,
    outer: bool,
) -> (r: Result<Rows, Error>)
    ensures
        r is Ok <==> spec_hash(
            left@,
            right@,
            left_column as int,
            right_column as int,
            right_size as int,
            outer,
        ) is Some,
        r matches Ok(v) ==> spec_hash(
            left@,
            right@,
            left_column as int,
            right_column as int,
            right_size as int,
            outer,
        ) == Some(spec_row_views(v@)),
        r matches Ok(v) ==> forall|x: int|
            0 <= x < v@.len() ==> (#[trigger] v@[x]).0 == (RecordId {
                page_id: crate::INVALID_PID,
                slot_id: 0,
            }),
{
    let ghost lc = left_column as int;
    let ghost rc = right_column as int;
    let invalid_rid = RecordId::invalid();
    // build: bucket the right rows by their join value, keyed by field
    // equality, leaving out rows whose key is undefined
    let mut table: Vec<(Field, Rows)> = Vec::new();
    let rn = right.len();
    let mut j: usize = 0;
    while j < rn
        invariant
            rc == right_column as int,
            rn == right@.len(),
            j <= rn,
            forall|y: int| 0 <= y < j ==> rc < (#[trigger] right@[y]).1@.len(),
            forall|b: int|
                0 <= b < table@.len() ==> !crate::field::spec_field_is_undefined(
                    (#[trigger] table@[b]).0@,
                ),
            forall|b: int| 0 <= b < table@.len() ==> (#[trigger] table@[b]).1@.len() > 0,
            forall|b1: int, b2: int|
                0 <= b1 < b2 < table@.len() ==> !crate::field::spec_field_eq(
                    (#[trigger] table@[b1]).0@,
                    (#[trigger] table@[b2]).0@,
                ),
            forall|b: int|
                0 <= b < table@.len() ==> spec_row_views((#[trigger] table@[b]).1@)
                    == spec_hash_matches(right@.take(j as int), table@[b].0@, rc),
            forall|y: int|
                0 <= y < j && !crate::field::spec_field_is_undefined(
                    (#[trigger] right@[y]).1@[rc],
                ) ==> exists|b: int|
                    0 <= b < table@.len() && crate::field::spec_field_eq(
                        right@[y].1@[rc],
                        (#[trigger] table@[b]).0@,
                    ),
        decreases rn - j,
    {
        proof {
            assert(right@.take(j as int + 1).drop_last() =~= right@.take(j as int));
            assert(right@.take(j as int + 1).last() == right@[j as int]);
        }
        let value = match right[j].1.get_field(right_column) {
            Ok(f) => f,
            Err(e) => {
                proof {
                    assert(!spec_hash_ok(right@, rc)) by {
                        assert(!(rc < right@[j as int].1@.len()));
                    }
                }
                return Err(e);
            },
        };
        if !value.is_undefined() {
            let tn = table.len();
            let mut at: usize = 0;
            let mut found = false;
            while at < tn && !found
                invariant
                    tn == table@.len(),
                    at <= tn,
                    found ==> at < tn && crate::field::spec_field_eq(
                        (#[trigger] table@[at as int]).0@,
                        value@,
                    ),
                    !found ==> (forall|b: int|
                        0 <= b < at ==> !crate::field::spec_field_eq(
                            (#[trigger] table@[b]).0@,
                            value@,
                        )),
                decreases tn - at + (if found {
                    0int
                } else {
                    1int
                }),
            {
                if table[at].0 == value {
                    found = true;
                } else {
                    at = at + 1;
                }
            }
            let ghost table0 = table@;
            if !found {
                at = table.len();
                table.push((value, Vec::new()));
                proof {
                    assert(spec_row_views(table@[at as int].1@) =~= Seq::<Seq<FieldView>>::empty());
                    assert(spec_hash_matches(right@.take(j as int), value@, rc)
                        =~= Seq::<Seq<FieldView>>::empty()) by {
                        lemma_unknown_key_no_matches(right@.take(j as int), table0, value@, rc);
                    }
                }
            }
            let ghost table1 = table@;
            let rid = right[j].0;
            let row = right[j].1.clone();
            let entry = &mut table[at];
            entry.1.push((rid, row));
            proof {
                // between the snapshots, only a fresh empty bucket appeared
                assert(forall|b: int|
                    0 <= b < table0.len() ==> #[trigger] table1[b] == table0[b]);
                assert(crate::field::spec_field_eq(value@, table1[at as int].0@));
                // the touched bucket gains the row; the others are unchanged
                assert forall|b: int|
                    0 <= b < table@.len() implies spec_row_views((#[trigger] table@[b]).1@)
                        == spec_hash_matches(right@.take(j as int + 1), table@[b].0@, rc) by {
                    assert(right@.take(j as int + 1).drop_last() =~= right@.take(j as int));
                    assert(right@.take(j as int + 1).last() == right@[j as int]);
                    if b == at as int {
                        assert(table@[b].0 == table1[b].0);
                        assert(spec_row_views(table@[b].1@) =~= spec_row_views(
                            table1[b].1@,
                        ).push(right@[j as int].1@));
                        assert(crate::field::spec_field_eq(
                            right@[j as int].1@[rc],
                            table@[b].0@,
                        ));
                        if b < table0.len() {
                            assert(spec_row_views(table1[b].1@) == spec_hash_matches(
                                right@.take(j as int),
                                table1[b].0@,
                                rc,
                            ));
                        }
                    } else {
                        assert(table@[b] == table1[b]);
                        // this bucket's key differs from the new row's key
                        assert(!crate::field::spec_field_eq(
                            right@[j as int].1@[rc],
                            table@[b].0@,
                        )) by {
                            if crate::field::spec_field_eq(
                                right@[j as int].1@[rc],
                                table@[b].0@,
                            ) {
                                lemma_field_eq_symm(right@[j as int].1@[rc], table@[b].0@);
                                lemma_field_eq_symm(value@, table1[at as int].0@);
                                lemma_field_eq_trans(
                                    table1[at as int].0@,
                                    value@,
                                    table@[b].0@,
                                );
                                if found {
                                    if b < at as int {
                                        lemma_field_eq_symm(
                                            table1[at as int].0@,
                                            table@[b].0@,
                                        );
                                    }
                                } else {
                                    lemma_field_eq_symm(table1[at as int].0@, table@[b].0@);
                                }
                                assert(false);
                            }
                        }
                    }
                }
                assert forall|y: int|
                    0 <= y < j + 1 && !crate::field::spec_field_is_undefined(
                        (#[trigger] right@[y]).1@[rc],
                    ) implies exists|b: int|
                        0 <= b < table@.len() && crate::field::spec_field_eq(
                            right@[y].1@[rc],
                            (#[trigger] table@[b]).0@,
                        ) by {
                    if y == j as int {
                        assert(crate::field::spec_field_eq(
                            right@[y].1@[rc],
                            table@[at as int].0@,
                        )) by {
                            assert(table@[at as int].0 == table1[at as int].0);
                        }
                    } else {
                        let b0 = choose|b0: int|
                            0 <= b0 < table0.len() && crate::field::spec_field_eq(
                                right@[y].1@[rc],
                                (#[trigger] table0[b0]).0@,
                            );
                        assert(table@[b0].0 == table0[b0].0);
                        assert(crate::field::spec_field_eq(
                            right@[y].1@[rc],
                            table@[b0].0@,
                        ));
                    }
                }
            }
        } else {
            proof {
                assert forall|b: int|
                    0 <= b < table@.len() implies spec_row_views((#[trigger] table@[b]).1@)
                        == spec_hash_matches(right@.take(j as int + 1), table@[b].0@, rc) by {
                    assert(right@.take(j as int + 1).drop_last() =~= right@.take(j as int));
                    assert(right@.take(j as int + 1).last() == right@[j as int]);
                }
            }
        }
        j = j + 1;
    }
    proof {
        assert(right@.take(rn as int) =~= right@);
    }
    // probe: emit each left row's matches, in right order
    let mut out: Rows = Vec::new();
    let ln = left.len();
    let mut i: usize = 0;
    proof {
        assert(left@.take(0) =~= Seq::<(RecordId, Row)>::empty());
        assert(spec_row_views(out@) =~= Seq::<Seq<FieldView>>::empty());
    }
    while i < ln
        invariant
            lc == left_column as int,
            rc == right_column as int,
            ln == left@.len(),
            rn == right@.len(),
            spec_hash_ok(right@, rc),
            invalid_rid == (RecordId { page_id: crate::INVALID_PID, slot_id: 0 }),
            i <= ln,
            forall|b: int|
                0 <= b < table@.len() ==> !crate::field::spec_field_is_undefined(
                    (#[trigger] table@[b]).0@,
                ),
            forall|b: int| 0 <= b < table@.len() ==> (#[trigger] table@[b]).1@.len() > 0,
            forall|b1: int, b2: int|
                0 <= b1 < b2 < table@.len() ==> !crate::field::spec_field_eq(
                    (#[trigger] table@[b1]).0@,
                    (#[trigger] table@[b2]).0@,
                ),
            forall|b: int|
                0 <= b < table@.len() ==> spec_row_views((#[trigger] table@[b]).1@)
                    == spec_hash_matches(right@, table@[b].0@, rc),
            forall|y: int|
                0 <= y < rn && !crate::field::spec_field_is_undefined(
                    (#[trigger] right@[y]).1@[rc],
                ) ==> exists|b: int|
                    0 <= b < table@.len() && crate::field::spec_field_eq(
                        right@[y].1@[rc],
                        (#[trigger] table@[b]).0@,
                    ),
            spec_hash_probe(left@.take(i as int), right@, lc, rc, right_size as int, outer)
                == Some(spec_row_views(out@)),
            forall|x: int| 0 <= x < out@.len() ==> (#[trigger] out@[x]).0 == invalid_rid,
        decreases ln - i,
    {
        proof {
            assert(left@.take(i as int + 1).drop_last() =~= left@.take(i as int));
            assert(left@.take(i as int + 1).last() == left@[i as int]);
        }
        let value = match left[i].1.get_field(left_column) {
            Ok(f) => f,
            Err(e) => {
                proof {
                    assert(spec_hash_probe(
                        left@.take(i as int + 1),
                        right@,
                        lc,
                        rc,
                        right_size as int,
                        outer,
                    ) is None);
                    lemma_hash_probe_none_extends(
                        left@,
                        right@,
                        lc,
                        rc,
                        right_size as int,
                        outer,
                        i as int + 1,
                    );
                }
                return Err(e);
            },
        };
        let undefined = value.is_undefined();
        let tn = table.len();
        let mut at: usize = 0;
        let mut found = false;
        if !undefined {
            while at < tn && !found
                invariant
                    tn == table@.len(),
                    at <= tn,
                    value@ == left@[i as int].1@[lc],
                    i < ln,
                    ln == left@.len(),
                    lc < left@[i as int].1@.len(),
                    found ==> at < tn && crate::field::spec_field_eq(
                        (#[trigger] table@[at as int]).0@,
                        value@,
                    ),
                    !found ==> (forall|b: int|
                        0 <= b < at ==> !crate::field::spec_field_eq(
                            (#[trigger] table@[b]).0@,
                            value@,
                        )),
                decreases tn - at + (if found {
                    0int
                } else {
                    1int
                }),
            {
                if table[at].0 == value {
                    found = true;
                } else {
                    at = at + 1;
                }
            }
        }
        if found {
            proof {
                // the bucket found holds exactly this key's matches
                lemma_field_eq_symm(table@[at as int].0@, value@);
                lemma_matches_congruent(right@, table@[at as int].0@, value@, rc);
            }
            let ghost chunk_base = out@.len() as int;
            let ghost ms = spec_hash_matches(right@, left@[i as int].1@[lc], rc);
            let bn = table[at].1.len();
            let mut y: usize = 0;
            proof {
                assert(spec_row_views(out@).skip(chunk_base) =~= Seq::<Seq<FieldView>>::empty());
            }
            while y < bn
                invariant
                    ln == left@.len(),
                    lc == left_column as int,
                    rc == right_column as int,
                    i < ln,
                    at < table@.len(),
                    bn == table@[at as int].1@.len(),
                    invalid_rid == (RecordId { page_id: crate::INVALID_PID, slot_id: 0 }),
                    lc < left@[i as int].1@.len(),
                    ms == spec_hash_matches(right@, left@[i as int].1@[lc], rc),
                    spec_row_views(table@[at as int].1@) == ms,
                    y <= bn,
                    0 <= chunk_base <= out@.len(),
                    out@.len() == chunk_base + y,
                    spec_hash_probe(left@.take(i as int), right@, lc, rc, right_size as int, outer)
                        == Some(spec_row_views(out@.take(chunk_base))),
                    spec_row_views(out@).take(chunk_base) == spec_row_views(
                        out@.take(chunk_base),
                    ),
                    forall|q: int|
                        0 <= q < y ==> spec_row_views(out@).skip(chunk_base)[q]
                            == left@[i as int].1@ + ms[q],
                    forall|x: int| 0 <= x < out@.len() ==> (#[trigger] out@[x]).0 == invalid_rid,
                decreases bn - y,
            {
                let joined = row_concat(&left[i].1, &table[at].1[y].1);
                let ghost before = out@;
                out.push((invalid_rid, joined));
                proof {
                    assert(out@ =~= before.push((invalid_rid, joined)));
                    assert(spec_row_views(out@).take(chunk_base) =~= spec_row_views(
                        out@.take(chunk_base),
                    ));
                    assert forall|q: int|
                        0 <= q < y + 1 implies spec_row_views(out@).skip(chunk_base)[q]
                            == left@[i as int].1@ + ms[q] by {
                        if q < y as int {
                            assert(spec_row_views(out@).skip(chunk_base)[q] == spec_row_views(
                                before,
                            ).skip(chunk_base)[q]);
                        } else {
                            assert(spec_row_views(out@).skip(chunk_base)[q] == joined@);
                            assert(joined@ =~= left@[i as int].1@
                                + spec_row_views(table@[at as int].1@)[q]);
                        }
                    }
                }
                y = y + 1;
            }
            proof {
                assert(ms.len() > 0) by {
                    assert(spec_row_views(table@[at as int].1@).len()
                        == table@[at as int].1@.len());
                }
                assert(out@.len() == chunk_base + ms.len());
                assert forall|x: int| 0 <= x < out@.len() implies #[trigger] spec_row_views(
                    out@,
                )[x] == (spec_row_views(out@.take(chunk_base)) + Seq::new(
                    ms.len(),
                    |q: int| left@[i as int].1@ + ms[q],
                ))[x] by {
                    if x < chunk_base {
                        assert(spec_row_views(out@).take(chunk_base)[x] == spec_row_views(
                            out@.take(chunk_base),
                        )[x]);
                    } else {
                        assert(spec_row_views(out@).skip(chunk_base)[x - chunk_base]
                            == left@[i as int].1@ + ms[x - chunk_base]);
                    }
                }
                assert(spec_row_views(out@) =~= spec_row_views(out@.take(chunk_base)) + Seq::new(
                    ms.len(),
                    |q: int| left@[i as int].1@ + ms[q],
                ));
                assert(!crate::field::spec_field_is_undefined(left@[i as int].1@[lc]));
                assert(spec_hash_probe(
                    left@.take(i as int + 1),
                    right@,
                    lc,
                    rc,
                    right_size as int,
                    outer,
                ) == Some(spec_row_views(out@)));
            }
        } else {
            proof {
                if !undefined {
                    // no bucket matched, so no right row's key equals ours
                    assert(spec_hash_matches(right@, left@[i as int].1@[lc], rc).len() == 0) by {
                        assert forall|b: int|
                            0 <= b < table@.len() implies !crate::field::spec_field_eq(
                            (#[trigger] table@[b]).0@,
                            value@,
                        ) by {}
                        lemma_unknown_key_no_matches(right@, table@, left@[i as int].1@[lc], rc);
                    }
                }
            }
            if outer {
                let padded = row_pad_nulls(&left[i].1, right_size);
                proof {
                    assert(padded@ =~= spec_pad(left@[i as int].1@, right_size as int));
                }
                let ghost before = out@;
                out.push((invalid_rid, padded));
                proof {
                    assert(spec_row_views(out@) =~= spec_row_views(before).push(
                        spec_pad(left@[i as int].1@, right_size as int),
                    ));
                }
            }
            proof {
                assert(spec_hash_probe(
                    left@.take(i as int + 1),
                    right@,
                    lc,
                    rc,
                    right_size as int,
                    outer,
                ) == Some(spec_row_views(out@)));
            }
        }
        i = i + 1;
    }
    proof {
        assert(left@.take(ln as int) =~= left@);
    }
    Ok(out)
}

/// A key no bucket equals matches none of the rows those buckets cover.
proof fn lemma_unknown_key_no_matches(
    right: Seq<(RecordId, Row)>,
    table: Seq<(Field, Rows)>,
    lk: FieldView,
    rc: int,
)
    requires
        forall|y: int|
            0 <= y < right.len() && rc < (#[trigger] right[y]).1@.len()
                && !crate::field::spec_field_is_undefined(right[y].1@[rc]) ==> exists|b: int|
                0 <= b < table.len() && crate::field::spec_field_eq(
                    right[y].1@[rc],
                    (#[trigger] table[b]).0@,
                ),
        forall|b: int|
            0 <= b < table.len() ==> !crate::field::spec_field_eq((#[trigger] table[b]).0@, lk),
    ensures
        spec_hash_matches(right, lk, rc).len() == 0,
    decreases right.len(),
{
    if right.len() > 0 {
        lemma_unknown_key_no_matches(right.drop_last(), table, lk, rc);
        let rv = right.last().1@;
        if rc < rv.len() && !crate::field::spec_field_is_undefined(rv[rc])
            && crate::field::spec_field_eq(rv[rc], lk) {
            let b = choose|b: int|
                0 <= b < table.len() && crate::field::spec_field_eq(
                    right[right.len() - 1].1@[rc],
                    (#[trigger] table[b]).0@,
                );
            lemma_field_eq_symm(rv[rc], table[b].0@);
            lemma_field_eq_trans(table[b].0@, rv[rc], lk);
        }
    }
}


} // verus!
