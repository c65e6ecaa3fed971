use vstd::prelude::*;

use crate::errors::Error;
use crate::expression::{spec_eval, EvalOutcome, Expression};
use crate::field::{
    spec_checked_add, spec_field_cmp, spec_field_eq, Field, FieldArith, FieldView,
};
use crate::plan::Aggregate;
use crate::record_id::RecordId;
use crate::row::Row;
use crate::transform::Rows;

verus! {

/// A running aggregate value.
#[derive(Debug)]
pub enum Accumulator {
    /// A count of the values seen and their running sum.
    Average { count: i32, sum: Field },
    /// How many non-null values were seen.
    Count(i32),
    /// The largest value seen, if any.
    Max(Option<Field>),
    /// The smallest value seen, if any.
    Min(Option<Field>),
    /// The running sum, started from zero at the first value.
    Sum(Option<Field>),
}

/// How many of the given values are non-null.
pub open spec fn spec_count_nonnull(vals: Seq<FieldView>) -> int
    decreases vals.len(),
{
    if vals.len() == 0 {
        0
    } else {
        spec_count_nonnull(vals.drop_last()) + (if vals.last() is Null {
            0int
        } else {
            1int
        })
    }
}

/// The sum of a sequence of integers.
pub open spec fn spec_int_sum(vals: Seq<int>) -> int
    decreases vals.len(),
{
    if vals.len() == 0 {
        0
    } else {
        spec_int_sum(vals.drop_last()) + vals.last()
    }
}

/// Summing two columns and then adding the sums gives the same total as
/// summing the pointwise sums: the sum law for null-free integer columns.
pub proof fn lemma_sum_of_sums(xs: Seq<int>, ys: Seq<int>)
    requires
        xs.len() == ys.len(),
    ensures
        spec_int_sum(xs) + spec_int_sum(ys) == spec_int_sum(
            Seq::new(xs.len(), |i: int| xs[i] + ys[i]),
        ),
    decreases xs.len(),
{
    if xs.len() > 0 {
        lemma_sum_of_sums(xs.drop_last(), ys.drop_last());
        let zipped = Seq::new(xs.len(), |i: int| xs[i] + ys[i]);
        assert(zipped.drop_last() =~= Seq::new(
            xs.drop_last().len(),
            |i: int| xs.drop_last()[i] + ys.drop_last()[i],
        ));
    }
}

impl Accumulator {
    /// The starting accumulator of an aggregate.
    pub fn new(aggregate: &Aggregate) -> (r: Accumulator)
        ensures
            aggregate is Average ==> r == (Accumulator::Average {
                count: 0i32,
                sum: Field::Integer(0),
            }),
            aggregate is Count ==> r == Accumulator::Count(0),
            aggregate is Max ==> r == Accumulator::Max(Option::<Field>::None),
            aggregate is Min ==> r == Accumulator::Min(Option::<Field>::None),
            aggregate is Sum ==> r == Accumulator::Sum(Option::<Field>::None),
    {
        match aggregate {
            Aggregate::Average(_) => Accumulator::Average { count: 0, sum: Field::Integer(0) },
            Aggregate::Count(_) => Accumulator::Count(0),
            Aggregate::Max(_) => Accumulator::Max(Option::None),
            Aggregate::Min(_) => Accumulator::Min(Option::None),
            Aggregate::Sum(_) => Accumulator::Sum(Option::None),
        }
    }

    /// Folds one value in: a count grows on non-null values, a sum and an
    /// average add with checked arithmetic, and a least or greatest value
    /// is replaced when the new value passes it.
    pub fn add(&mut self, value: Field) -> (r: Result<(), Error>)
        ensures
            r is Ok <==> spec_accv_add(spec_acc_view(*old(self)), value@) is Some,
            r is Ok ==> Some(spec_acc_view(*final(self))) == spec_accv_add(
                spec_acc_view(*old(self)),
                value@,
            ),
            *old(self) matches Accumulator::Count(c) ==> {
                &&& (r is Ok <==> (value@ is Null || c < i32::MAX))
                &&& (r is Ok && value@ is Null ==> *final(self) == *old(self))
                &&& (r is Ok && !(value@ is Null) ==> *final(self) == Accumulator::Count(
                    (c + 1) as i32,
                ))
            },
            *old(self) matches Accumulator::Sum(state) ==> {
                let current = match state {
                    Some(f) => f@,
                    Option::None => FieldView::Integer(0),
                };
                &&& (r is Ok <==> spec_checked_add(current, value@) is Value)
                &&& (r is Ok ==> (*final(self) matches Accumulator::Sum(ns) && ns matches Some(f)
                    && spec_checked_add(current, value@) == FieldArith::Value(f@)))
            },
            *old(self) matches Accumulator::Average { count, sum } ==> {
                &&& (r is Ok <==> count < i32::MAX && spec_checked_add(sum@, value@) is Value)
                &&& (r is Ok ==> (*final(self) matches Accumulator::Average {
                    count: nc,
                    sum: ns,
                } && nc == count + 1 && spec_checked_add(sum@, value@) == FieldArith::Value(
                    ns@,
                )))
            },
            *old(self) matches Accumulator::Max(state) ==> {
                &&& r is Ok
                &&& (state matches Some(cur) ==> (if spec_field_cmp(value@, cur@)
                    == core::cmp::Ordering::Greater {
                    *final(self) == Accumulator::Max(Some(value))
                } else {
                    *final(self) == *old(self)
                }))
                &&& (state is None ==> *final(self) == Accumulator::Max(Some(value)))
            },
            *old(self) matches Accumulator::Min(state) ==> {
                &&& r is Ok
                &&& (state matches Some(cur) ==> (if spec_field_cmp(value@, cur@)
                    == core::cmp::Ordering::Less {
                    *final(self) == Accumulator::Min(Some(value))
                } else {
                    *final(self) == *old(self)
                }))
                &&& (state is None ==> *final(self) == Accumulator::Min(Some(value)))
            },
    {
        match self {
            Accumulator::Sum(state) => {
                let current = match state {
                    Some(f) => f.clone(),
                    Option::None => Field::Integer(0),
                };
                let total = match current.checked_add(&value) {
                    Ok(f) => f,
                    Err(e) => {
                        return Err(e);
                    },
                };
                *self = Accumulator::Sum(Some(total));
                Ok(())
            },
            Accumulator::Average { count, sum } => {
                if *count == i32::MAX {
                    return Err(Error::OverflowError);
                }
                let total = match sum.checked_add(&value) {
                    Ok(f) => f,
                    Err(e) => {
                        return Err(e);
                    },
                };
                let new_count = *count + 1;
                *self = Accumulator::Average { count: new_count, sum: total };
                Ok(())
            },
            Accumulator::Count(count) => {
                if !value.is_null() {
                    if *count == i32::MAX {
                        return Err(Error::OverflowError);
                    }
                    let new_count = *count + 1;
                    *self = Accumulator::Count(new_count);
                }
                Ok(())
            },
            Accumulator::Max(state) => {
                match state {
                    Some(current) => {
                        match value.cmp(current) {
                            core::cmp::Ordering::Greater => {
                                *self = Accumulator::Max(Some(value));
                            },
                            _ => {},
                        }
                    },
                    Option::None => {
                        *self = Accumulator::Max(Some(value));
                    },
                }
                Ok(())
            },
            Accumulator::Min(state) => {
                match state {
                    Some(current) => {
                        match value.cmp(current) {
                            core::cmp::Ordering::Less => {
                                *self = Accumulator::Min(Some(value));
                            },
                            _ => {},
                        }
                    },
                    Option::None => {
                        *self = Accumulator::Min(Some(value));
                    },
                }
                Ok(())
            },
        }
    }

    /// The aggregate's final value: a count as an integer, an average as
    /// the checked quotient of sum and count, and the rest as their state
    /// or null when nothing was seen.
    pub fn value(self) -> (r: Result<Field, Error>)
        ensures
            r is Ok <==> spec_accv_value(spec_acc_view(self)) is Some,
            r matches Ok(f) ==> spec_accv_value(spec_acc_view(self)) == Some(f@),
            self matches Accumulator::Count(c) ==> (r matches Ok(f) && f@ == FieldView::Integer(
                c,
            )),
            self matches Accumulator::Sum(state) ==> (r matches Ok(f) && f == (match state {
                Some(v) => v,
                Option::None => Field::Null,
            })),
            self matches Accumulator::Max(state) ==> (r matches Ok(f) && f == (match state {
                Some(v) => v,
                Option::None => Field::Null,
            })),
            self matches Accumulator::Min(state) ==> (r matches Ok(f) && f == (match state {
                Some(v) => v,
                Option::None => Field::Null,
            })),
            self matches Accumulator::Average { count, sum } ==> {
                &&& (count == 0 ==> (r matches Ok(f) && f@ is Null))
                &&& (count != 0 ==> (r is Ok <==> crate::field::spec_checked_div(
                    sum@,
                    FieldView::Integer(count),
                ) is Value) && (r matches Ok(f) ==> crate::field::spec_checked_div(
                    sum@,
                    FieldView::Integer(count),
                ) == FieldArith::Value(f@)))
            },
    {
        match self {
            Accumulator::Average { count, sum } => {
                if count == 0 {
                    Ok(Field::Null)
                } else {
                    let divisor = Field::Integer(count);
                    sum.checked_div(&divisor)
                }
            },
            Accumulator::Count(count) => Ok(Field::Integer(count)),
            Accumulator::Max(value) => match value {
                Some(v) => Ok(v),
                Option::None => Ok(Field::Null),
            },
            Accumulator::Min(value) => match value {
                Some(v) => Ok(v),
                Option::None => Ok(Field::Null),
            },
            Accumulator::Sum(value) => match value {
                Some(v) => Ok(v),
                Option::None => Ok(Field::Null),
            },
        }
    }
}

} // verus!

verus! {

/// The expression an aggregate evaluates per row.
pub open spec fn spec_agg_expr(aggregate: Aggregate) -> Expression {
    match aggregate {
        Aggregate::Average(e) => e,
        Aggregate::Count(e) => e,
        Aggregate::Max(e) => e,
        Aggregate::Min(e) => e,
        Aggregate::Sum(e) => e,
    }
}

/// The value an expression takes on each row, for rows where it evaluates.
pub open spec fn spec_eval_vals(rows: Seq<(RecordId, Row)>, e: Expression) -> Seq<FieldView> {
    Seq::new(rows.len(), |i: int| crate::transform::spec_projected(rows[i].1@, e))
}

/// An accumulator's state as field values.
pub enum AccView {
    Average { count: int, sum: FieldView },
    Count(int),
    Max(Option<FieldView>),
    Min(Option<FieldView>),
    Sum(Option<FieldView>),
}

/// The state of a running accumulator.
pub open spec fn spec_acc_view(acc: Accumulator) -> AccView {
    match acc {
        Accumulator::Average { count, sum } => AccView::Average { count: count as int, sum: sum@ },
        Accumulator::Count(c) => AccView::Count(c as int),
        Accumulator::Max(state) => AccView::Max(match state {
            Some(f) => Some(f@),
            Option::None => Option::None,
        }),
        Accumulator::Min(state) => AccView::Min(match state {
            Some(f) => Some(f@),
            Option::None => Option::None,
        }),
        Accumulator::Sum(state) => AccView::Sum(match state {
            Some(f) => Some(f@),
            Option::None => Option::None,
        }),
    }
}

/// The state an aggregate's accumulator starts from.
pub open spec fn spec_acc_init(aggregate: Aggregate) -> AccView {
    match aggregate {
        Aggregate::Average(_) => AccView::Average { count: 0, sum: FieldView::Integer(0) },
        Aggregate::Count(_) => AccView::Count(0),
        Aggregate::Max(_) => AccView::Max(Option::None),
        Aggregate::Min(_) => AccView::Min(Option::None),
        Aggregate::Sum(_) => AccView::Sum(Option::None),
    }
}

/// How one value folds into an accumulator state, or nothing when the
/// checked arithmetic fails or a count leaves its range: the table of
/// update rules, one per aggregate kind.
pub open spec fn spec_accv_add(acc: AccView, value: FieldView) -> Option<AccView> {
    match acc {
        AccView::Sum(state) => {
            let current = match state {
                Some(f) => f,
                Option::None => FieldView::Integer(0),
            };
            match spec_checked_add(current, value) {
                FieldArith::Value(v) => Some(AccView::Sum(Some(v))),
                _ => Option::None,
            }
        },
        AccView::Average { count, sum } => {
            if count >= i32::MAX {
                Option::None
            } else {
                match spec_checked_add(sum, value) {
                    FieldArith::Value(v) => Some(AccView::Average { count: count + 1, sum: v }),
                    _ => Option::None,
                }
            }
        },
        AccView::Count(count) => {
            if value is Null {
                Some(AccView::Count(count))
            } else if count >= i32::MAX {
                Option::None
            } else {
                Some(AccView::Count(count + 1))
            }
        },
        AccView::Max(state) => match state {
            Some(current) => if spec_field_cmp(value, current) == core::cmp::Ordering::Greater {
                Some(AccView::Max(Some(value)))
            } else {
                Some(AccView::Max(Some(current)))
            },
            Option::None => Some(AccView::Max(Some(value))),
        },
        AccView::Min(state) => match state {
            Some(current) => if spec_field_cmp(value, current) == core::cmp::Ordering::Less {
                Some(AccView::Min(Some(value)))
            } else {
                Some(AccView::Min(Some(current)))
            },
            Option::None => Some(AccView::Min(Some(value))),
        },
    }
}

/// An accumulator's finalized value, or nothing when the closing division
/// of an average fails.
pub open spec fn spec_accv_value(acc: AccView) -> Option<FieldView> {
    match acc {
        AccView::Count(c) => Some(FieldView::Integer(c as i32)),
        AccView::Sum(state) => Some(match state {
            Some(v) => v,
            Option::None => FieldView::Null,
        }),
        AccView::Max(state) => Some(match state {
            Some(v) => v,
            Option::None => FieldView::Null,
        }),
        AccView::Min(state) => Some(match state {
            Some(v) => v,
            Option::None => FieldView::Null,
        }),
        AccView::Average { count, sum } => {
            if count == 0 {
                Some(FieldView::Null)
            } else {
                match crate::field::spec_checked_div(sum, FieldView::Integer(count as i32)) {
                    FieldArith::Value(v) => Some(v),
                    _ => Option::None,
                }
            }
        },
    }
}

/// The state after folding a whole column of values, in order.
pub open spec fn spec_acc_fold(init: AccView, vals: Seq<FieldView>) -> Option<AccView>
    decreases vals.len(),
{
    if vals.len() == 0 {
        Some(init)
    } else {
        match spec_acc_fold(init, vals.drop_last()) {
            Some(acc) => spec_accv_add(acc, vals.last()),
            Option::None => Option::None,
        }
    }
}

/// Whether one aggregate's expression evaluates on every row.
pub open spec fn spec_col_ok(rows: Seq<(RecordId, Row)>, e: Expression) -> bool {
    forall|i: int|
        0 <= i < rows.len() ==> spec_eval(e, Some((#[trigger] rows[i]).1@)) is Value
}

/// The finalized values of ungrouped aggregates over the rows, or nothing
/// when an evaluation, a fold, or a finalization fails; one value per
/// aggregate, over the first `m` of them.
pub open spec fn spec_ungrouped(
    rows: Seq<(RecordId, Row)>,
    aggregates: Seq<Aggregate>,
    m: int,
) -> Option<Seq<FieldView>>
    decreases m,
{
    if m <= 0 {
        Some(Seq::empty())
    } else {
        match spec_ungrouped(rows, aggregates, m - 1) {
            Some(done) => {
                let e = spec_agg_expr(aggregates[m - 1]);
                if !spec_col_ok(rows, e) {
                    Option::None
                } else {
                    match spec_acc_fold(spec_acc_init(aggregates[m - 1]), spec_eval_vals(rows, e)) {
                        Some(acc) => match spec_accv_value(acc) {
                            Some(f) => Some(done.push(f)),
                            Option::None => Option::None,
                        },
                        Option::None => Option::None,
                    }
                }
            },
            Option::None => Option::None,
        }
    }
}

/// A count accumulator folded over a column tallies its non-null values.
pub proof fn lemma_count_fold(vals: Seq<FieldView>)
    requires
        spec_count_nonnull(vals) <= i32::MAX,
    ensures
        spec_acc_fold(AccView::Count(0), vals) == Some(AccView::Count(spec_count_nonnull(vals))),
    decreases vals.len(),
{
    if vals.len() > 0 {
        lemma_count_nonnull_bounds(vals.drop_last());
        lemma_count_nonnull_bounds(vals);
        lemma_count_fold(vals.drop_last());
    }
}

/// The non-null tally lies between zero and the column's length, and never
/// falls when the column grows.
pub proof fn lemma_count_nonnull_bounds(vals: Seq<FieldView>)
    ensures
        0 <= spec_count_nonnull(vals) <= vals.len(),
    decreases vals.len(),
{
    if vals.len() > 0 {
        lemma_count_nonnull_bounds(vals.drop_last());
    }
}

/// The integer values of an all-integer column's first `p` entries.
pub open spec fn spec_int_prefix(vals: Seq<FieldView>, p: int) -> Seq<int> {
    Seq::new(p as nat, |i: int| vals[i]->Integer_0 as int)
}

/// A sum accumulator folded over an integer column carries their exact sum,
/// as long as every partial sum stays in range.
pub proof fn lemma_sum_fold_integers(vals: Seq<FieldView>)
    requires
        vals.len() > 0,
        forall|i: int| 0 <= i < vals.len() ==> (#[trigger] vals[i]) is Integer,
        forall|p: int|
            0 < p <= vals.len() ==> i32::MIN <= spec_int_sum(#[trigger] spec_int_prefix(vals, p))
                <= i32::MAX,
    ensures
        spec_acc_fold(AccView::Sum(Option::None), vals) == Some(
            AccView::Sum(
                Some(
                    FieldView::Integer(
                        spec_int_sum(spec_int_prefix(vals, vals.len() as int)) as i32,
                    ),
                ),
            ),
        ),
    decreases vals.len(),
{
    let ints = spec_int_prefix(vals, vals.len() as int);
    if vals.len() == 1 {
        assert(ints.len() == 1);
        assert(ints.drop_last() =~= Seq::<int>::empty());
        assert(spec_int_sum(ints.drop_last()) == 0);
        assert(spec_int_sum(ints) == spec_int_sum(ints.drop_last()) + ints.last());
        assert(spec_acc_fold(AccView::Sum(Option::None), vals) == spec_accv_add(
            AccView::Sum(Option::None),
            vals.last(),
        )) by {
            assert(vals.drop_last() =~= Seq::<FieldView>::empty());
            assert(spec_acc_fold(AccView::Sum(Option::None), vals.drop_last()) == Some(
                AccView::Sum(Option::<FieldView>::None),
            ));
        }
    } else {
        let prev = vals.drop_last();
        let prev_ints = spec_int_prefix(prev, prev.len() as int);
        assert forall|p: int|
            0 < p <= prev.len() implies i32::MIN <= spec_int_sum(
            #[trigger] spec_int_prefix(prev, p),
        ) <= i32::MAX by {
            assert(spec_int_prefix(prev, p) =~= spec_int_prefix(vals, p));
        }
        lemma_sum_fold_integers(prev);
        assert(prev_ints =~= ints.drop_last());
        assert(spec_int_sum(ints) == spec_int_sum(ints.drop_last()) + ints.last());
    }
}

/// Counting values that are never null tallies every one of them: with a
/// non-null expression, a count aggregate reports exactly the number of
/// input rows.
pub proof fn lemma_count_all_nonnull(vals: Seq<FieldView>)
    requires
        forall|i: int| 0 <= i < vals.len() ==> !((#[trigger] vals[i]) is Null),
    ensures
        spec_count_nonnull(vals) == vals.len(),
    decreases vals.len(),
{
    if vals.len() > 0 {
        lemma_count_all_nonnull(vals.drop_last());
    }
}

/// Pointwise field-value equality of two bucket keys.
pub open spec fn spec_kv_eq(a: Seq<FieldView>, b: Seq<FieldView>) -> bool {
    a.len() == b.len() && (forall|i: int| 0 <= i < a.len() ==> spec_field_eq(a[i], b[i]))
}

/// A row's bucket key: the group-by expressions evaluated on it.
pub open spec fn spec_group_key(rv: Seq<FieldView>, group_by: Seq<Expression>) -> Seq<FieldView> {
    Seq::new(group_by.len(), |g: int| crate::transform::spec_projected(rv, group_by[g]))
}

/// Whether every group-by expression evaluates on every row.
pub open spec fn spec_keys_ok(rows: Seq<(RecordId, Row)>, group_by: Seq<Expression>) -> bool {
    forall|i: int, g: int|
        0 <= i < rows.len() && 0 <= g < group_by.len() ==> spec_eval(
            #[trigger] group_by[g],
            Some((#[trigger] rows[i]).1@),
        ) is Value
}

/// Whether a key already stands among the given keys, up to field equality.
pub open spec fn spec_kv_in(keys: Seq<Seq<FieldView>>, k: Seq<FieldView>) -> bool {
    exists|b: int| 0 <= b < keys.len() && spec_kv_eq(#[trigger] keys[b], k)
}

/// The distinct bucket keys of the rows, in first-seen order.
pub open spec fn spec_distinct_keys(rows: Seq<(RecordId, Row)>, group_by: Seq<Expression>) -> Seq<
    Seq<FieldView>,
>
    decreases rows.len(),
{
    if rows.len() == 0 {
        Seq::empty()
    } else {
        let done = spec_distinct_keys(rows.drop_last(), group_by);
        let k = spec_group_key(rows.last().1@, group_by);
        if spec_kv_in(done, k) {
            done
        } else {
            done.push(k)
        }
    }
}

/// A failed fold step dooms the whole column's fold.
pub proof fn lemma_fold_none_extends(init: AccView, vals: Seq<FieldView>, m: int)
    requires
        0 <= m <= vals.len(),
        spec_acc_fold(init, vals.take(m)) is None,
    ensures
        spec_acc_fold(init, vals) is None,
    decreases vals.len() - m,
{
    if m == vals.len() {
        assert(vals.take(m) =~= vals);
    } else {
        assert(vals.take(m + 1).drop_last() =~= vals.take(m));
        lemma_fold_none_extends(init, vals, m + 1);
    }
}

/// A failed aggregate column dooms every longer prefix of the aggregates.
pub proof fn lemma_ungrouped_none_lifts(
    rows: Seq<(RecordId, Row)>,
    aggregates: Seq<Aggregate>,
    j: int,
    m: int,
)
    requires
        0 <= j <= m,
        spec_ungrouped(rows, aggregates, j) is None,
    ensures
        spec_ungrouped(rows, aggregates, m) is None,
    decreases m - j,
{
    if j < m {
        lemma_ungrouped_none_lifts(rows, aggregates, j + 1, m);
    }
}

/// Over no rows, every aggregate finalizes: a count to zero and the rest
/// to null, so an ungrouped aggregation of an empty input always succeeds.
pub proof fn lemma_ungrouped_empty(rows: Seq<(RecordId, Row)>, aggregates: Seq<Aggregate>, m: int)
    requires
        rows.len() == 0,
        0 <= m <= aggregates.len(),
    ensures
        spec_ungrouped(rows, aggregates, m) matches Some(vals) && vals.len() == m && (forall|j: int|
            0 <= j < m ==> (#[trigger] vals[j]) == (if aggregates[j] is Count {
                FieldView::Integer(0)
            } else {
                FieldView::Null
            })),
    decreases m,
{
    if m > 0 {
        lemma_ungrouped_empty(rows, aggregates, m - 1);
        assert(spec_eval_vals(rows, spec_agg_expr(aggregates[m - 1])) =~= Seq::<
            FieldView,
        >::empty());
    }
}

/// The exec key comparison agrees with pointwise view equality.
proof fn lemma_kv_match(a: Seq<Field>, b: Seq<Field>)
    ensures
        spec_keys_match(a, b) == spec_kv_eq(
            Seq::new(a.len(), |q: int| (a[q])@),
            Seq::new(b.len(), |q: int| (b[q])@),
        ),
{
    let va = Seq::new(a.len(), |q: int| (a[q])@);
    let vb = Seq::new(b.len(), |q: int| (b[q])@);
    if spec_keys_match(a, b) {
        assert forall|i: int| 0 <= i < va.len() implies spec_field_eq(va[i], vb[i]) by {
            assert(spec_field_eq((a[i])@, (b[i])@));
        }
    }
    if spec_kv_eq(va, vb) {
        assert forall|i: int| 0 <= i < a.len() implies spec_field_eq((a[i])@, (b[i])@) by {
            assert(spec_field_eq(va[i], vb[i]));
        }
    }
}

/// Whether two bucket keys hold equal field values, at the spec level.
pub open spec fn spec_keys_match(a: Seq<Field>, b: Seq<Field>) -> bool {
    a.len() == b.len() && (forall|i: int| 0 <= i < a.len() ==> spec_field_eq((#[trigger] a[i])@, b[i]@))
}

/// Whether two bucket keys hold equal field values.
fn keys_equal(a: &Vec<Field>, b: &Vec<Field>) -> (r: bool)
    ensures
        r == spec_keys_match(a@, b@),
{
    if a.len() != b.len() {
        return false;
    }
    let n = a.len();
    let mut i: usize = 0;
    while i < n
        invariant
            n == a@.len(),
            n == b@.len(),
            i <= n,
            forall|x: int| 0 <= x < i ==> spec_field_eq((#[trigger] a@[x])@, b@[x]@),
        decreases n - i,
    {
        if !(a[i] == b[i]) {
            proof {
                assert(!spec_field_eq(a@[i as int]@, b@[i as int]@));
                assert(!spec_keys_match(a@, b@));
            }
            return false;
        }
        i = i + 1;
    }
    true
}

/// Groups the source rows by the group-by expressions and folds every
/// aggregate over each bucket. Buckets come out in first-seen key order,
/// one output row per distinct key, holding the key's fields and then the
/// finalized aggregates. With no rows and no grouping, one row of empty
/// aggregates comes back, so that a count over nothing reports zero.
#[verifier::rlimit(80)]
pub fn aggregate(source: Rows, group_by: Vec<Expression>, aggregates: Vec<Aggregate>) -> (r:
    Result<Rows, Error>)
    ensures
        r is Ok ==> spec_keys_ok(source@, group_by@),
        r matches Ok(v) ==> {
            &&& (forall|x: int|
                0 <= x < v@.len() ==> (#[trigger] v@[x]).1@.len() == group_by@.len()
                    + aggregates@.len())
            &&& (forall|x: int|
                0 <= x < v@.len() ==> (#[trigger] v@[x]).0 == (RecordId {
                    page_id: crate::INVALID_PID,
                    slot_id: 0,
                }))
            &&& v@.len() == (if source@.len() == 0 && group_by@.len() == 0 {
                1int
            } else {
                spec_distinct_keys(source@, group_by@).len() as int
            })
            &&& (group_by@.len() > 0 ==> forall|x: int|
                0 <= x < v@.len() ==> (#[trigger] v@[x]).1@.subrange(
                    0,
                    group_by@.len() as int,
                ) == spec_distinct_keys(source@, group_by@)[x])
        },
        group_by@.len() == 0 ==> (r is Ok <==> spec_ungrouped(
            source@,
            aggregates@,
            aggregates@.len() as int,
        ) is Some),
        group_by@.len() == 0 ==> (r matches Ok(v) ==> Some(v@[0].1@) == spec_ungrouped(
            source@,
            aggregates@,
            aggregates@.len() as int,
        )),
{
    let invalid_rid = RecordId::invalid();
    let mut buckets: Vec<(Vec<Field>, Vec<Accumulator>)> = Vec::new();
    let gn = group_by.len();
    let an = aggregates.len();
    let mut rest = source;
    let ghost all = rest@;
    let n = rest.len();
    let mut i: usize = 0;
    proof {
        assert(rest@ =~= all.skip(0));
        assert(all.take(0) =~= Seq::<(RecordId, Row)>::empty());
        assert(spec_distinct_keys(all.take(0), group_by@) =~= Seq::<Seq<FieldView>>::empty());
    }
    while i < n
        invariant
            all == source@,
            n == all.len(),
            gn == group_by@.len(),
            an == aggregates@.len(),
            i <= n,
            rest@ == all.skip(i as int),
            spec_keys_ok(all.take(i as int), group_by@),
            buckets@.len() == spec_distinct_keys(all.take(i as int), group_by@).len(),
            forall|b: int| 0 <= b < buckets@.len() ==> (#[trigger] buckets@[b]).0@.len() == gn,
            forall|b: int| 0 <= b < buckets@.len() ==> (#[trigger] buckets@[b]).1@.len() == an,
            forall|b: int|
                0 <= b < buckets@.len() ==> Seq::new(
                    (#[trigger] buckets@[b]).0@.len(),
                    |q: int| (buckets@[b].0@[q])@,
                ) == spec_distinct_keys(all.take(i as int), group_by@)[b],
            gn == 0 ==> buckets@.len() <= 1,
            i == 0 ==> buckets@.len() == 0,
            gn == 0 ==> (forall|j: int|
                0 <= j < an ==> spec_col_ok(all.take(i as int), spec_agg_expr(
                    #[trigger] aggregates@[j],
                ))),
            gn == 0 && buckets@.len() == 1 ==> (forall|j: int|
                0 <= j < an ==> Some(spec_acc_view(#[trigger] buckets@[0].1@[j]))
                    == spec_acc_fold(
                    spec_acc_init(aggregates@[j]),
                    spec_eval_vals(all.take(i as int), spec_agg_expr(aggregates@[j])),
                )),
        decreases n - i,
    {
        proof {
            assert(rest@[0] == all[i as int]);
            assert(all.take(i as int + 1).drop_last() =~= all.take(i as int));
            assert(all.take(i as int + 1).last() == all[i as int]);
        }
        // the bucket key: the group-by expressions on this row
        let mut key: Vec<Field> = Vec::new();
        let mut g: usize = 0;
        while g < gn
            invariant
                all == source@,
                gn == group_by@.len(),
                i < n,
                n == all.len(),
                rest@ == all.skip(i as int),
                rest@[0] == all[i as int],
                g <= gn,
                key@.len() == g,
                forall|y: int|
                    0 <= y < g ==> spec_eval(
                        #[trigger] group_by@[y],
                        Some(all[i as int].1@),
                    ) is Value,
                forall|y: int|
                    0 <= y < g ==> ((#[trigger] key@[y])@) == crate::transform::spec_projected(
                        all[i as int].1@,
                        group_by@[y],
                    ),
            decreases gn - g,
        {
            let value = match group_by[g].evaluate(Some(&rest[0].1)) {
                Ok(v) => v,
                Err(e) => {
                    return Err(e);
                },
            };
            key.push(value);
            g = g + 1;
        }
        proof {
            assert(Seq::new(key@.len(), |q: int| (key@[q])@) =~= spec_group_key(
                all[i as int].1@,
                group_by@,
            ));
        }
        // find or start this key's bucket
        let bn = buckets.len();
        let mut at: usize = 0;
        let mut found = false;
        while at < bn && !found
            invariant
                bn == buckets@.len(),
                at <= bn,
                key@.len() == gn,
                forall|b: int| 0 <= b < bn ==> (#[trigger] buckets@[b]).0@.len() == gn,
                found ==> at < bn && spec_kv_eq(
                    Seq::new((#[trigger] buckets@[at as int]).0@.len(), |q: int| (buckets@[at as int].0@[q])@),
                    Seq::new(key@.len(), |q: int| (key@[q])@),
                ),
                !found ==> (forall|b: int|
                    0 <= b < at ==> !spec_kv_eq(
                        Seq::new((#[trigger] buckets@[b]).0@.len(), |q: int| (buckets@[b].0@[q])@),
                        Seq::new(key@.len(), |q: int| (key@[q])@),
                    )),
            decreases bn - at + (if found {
                0int
            } else {
                1int
            }),
        {
            proof {
                lemma_kv_match(buckets@[at as int].0@, key@);
            }
            if keys_equal(&buckets[at].0, &key) {
                found = true;
            } else {
                at = at + 1;
            }
        }
        let ghost key_view = spec_group_key(all[i as int].1@, group_by@);
        let ghost dk_prev = spec_distinct_keys(all.take(i as int), group_by@);
        proof {
            if found {
                assert(spec_kv_in(dk_prev, key_view)) by {
                    assert(spec_kv_eq(dk_prev[at as int], key_view));
                }
            } else {
                assert(!spec_kv_in(dk_prev, key_view)) by {
                    if spec_kv_in(dk_prev, key_view) {
                        let b = choose|b: int|
                            0 <= b < dk_prev.len() && spec_kv_eq(#[trigger] dk_prev[b], key_view);
                        assert(!spec_kv_eq(
                            Seq::new(buckets@[b].0@.len(), |q: int| (buckets@[b].0@[q])@),
                            Seq::new(key@.len(), |q: int| (key@[q])@),
                        ));
                        assert(spec_kv_eq(dk_prev[b], key_view));
                    }
                }
            }
        }
        if !found {
            let mut accs: Vec<Accumulator> = Vec::new();
            let mut j: usize = 0;
            while j < an
                invariant
                    an == aggregates@.len(),
                    j <= an,
                    accs@.len() == j,
                    forall|y: int|
                        0 <= y < j ==> spec_acc_view(#[trigger] accs@[y]) == spec_acc_init(
                            aggregates@[y],
                        ),
                decreases an - j,
            {
                accs.push(Accumulator::new(&aggregates[j]));
                j = j + 1;
            }
            at = buckets.len();
            buckets.push((key, accs));
            proof {
                if gn == 0 {
                    assert forall|j: int| 0 <= j < an implies Some(spec_acc_view(
                        #[trigger] buckets@[0].1@[j],
                    )) == spec_acc_fold(
                        spec_acc_init(aggregates@[j]),
                        spec_eval_vals(all.take(i as int), spec_agg_expr(aggregates@[j])),
                    ) by {
                        assert(i == 0);
                        assert(spec_eval_vals(all.take(0), spec_agg_expr(aggregates@[j])) =~= Seq::<
                            FieldView,
                        >::empty());
                    }
                }
            }
        }
        // fold this row into the bucket's accumulators
        let ghost row_view = all[i as int].1@;
        let ghost buckets_snap = buckets@;
        let mut j: usize = 0;
        while j < an
            invariant
                all == source@,
                an == aggregates@.len(),
                gn == group_by@.len(),
                i < n,
                n == all.len(),
                rest@ == all.skip(i as int),
                rest@[0] == all[i as int],
                row_view == all[i as int].1@,
                j <= an,
                at < buckets@.len(),
                buckets@.len() == buckets_snap.len(),
                forall|b: int| 0 <= b < buckets@.len() ==> (#[trigger] buckets@[b]).0
                    == buckets_snap[b].0,
                forall|b: int| 0 <= b < buckets@.len() ==> (#[trigger] buckets@[b]).1@.len() == an,
                gn == 0 ==> buckets@.len() <= 1,
                gn == 0 ==> at == 0,
                gn == 0 ==> (forall|y: int|
                    0 <= y < j ==> spec_eval(
                        spec_agg_expr(#[trigger] aggregates@[y]),
                        Some(all[i as int].1@),
                    ) is Value),
                gn == 0 ==> (forall|y: int|
                    0 <= y < j ==> spec_col_ok(all.take(i as int), spec_agg_expr(
                        #[trigger] aggregates@[y],
                    ))),
                gn == 0 ==> (forall|y: int|
                    j <= y < an ==> spec_col_ok(all.take(i as int), spec_agg_expr(
                        #[trigger] aggregates@[y],
                    ))),
                gn == 0 ==> (forall|y: int|
                    0 <= y < j ==> Some(spec_acc_view(#[trigger] buckets@[0].1@[y]))
                        == spec_acc_fold(
                        spec_acc_init(aggregates@[y]),
                        spec_eval_vals(all.take(i as int + 1), spec_agg_expr(aggregates@[y])),
                    )),
                gn == 0 ==> (forall|y: int|
                    j <= y < an ==> Some(spec_acc_view(#[trigger] buckets@[0].1@[y]))
                        == spec_acc_fold(
                        spec_acc_init(aggregates@[y]),
                        spec_eval_vals(all.take(i as int), spec_agg_expr(aggregates@[y])),
                    )),
            decreases an - j,
        {
            let value = match agg_expr(&aggregates[j]).evaluate(Some(&rest[0].1)) {
                Ok(v) => v,
                Err(e) => {
                    proof {
                        if gn == 0 {
                            assert(!spec_col_ok(all, spec_agg_expr(aggregates@[j as int]))) by {
                                assert(spec_eval(
                                    spec_agg_expr(aggregates@[j as int]),
                                    Some(all[i as int].1@),
                                ) is Failure);
                            }
                            assert(spec_ungrouped(all, aggregates@, j as int + 1) is None);
                            lemma_ungrouped_none_lifts(all, aggregates@, j as int + 1, an as int);
                        }
                    }
                    return Err(e);
                },
            };
            let ghost pre_acc_view = spec_acc_view(buckets@[at as int].1@[j as int]);
            let entry = &mut buckets[at];
            let acc = &mut entry.1[j];
            match acc.add(value) {
                Ok(_) => {},
                Err(e) => {
                    proof {
                        if gn == 0 {
                            let ej = spec_agg_expr(aggregates@[j as int]);
                            let vals_full = spec_eval_vals(all, ej);
                            if spec_col_ok(all, ej) {
                                assert(vals_full.take(i as int + 1) =~= spec_eval_vals(
                                    all.take(i as int + 1),
                                    ej,
                                ));
                                assert(spec_eval_vals(all.take(i as int + 1), ej).drop_last()
                                    =~= spec_eval_vals(all.take(i as int), ej));
                                assert(spec_eval_vals(all.take(i as int + 1), ej).last()
                                    == value@);
                                assert(spec_acc_fold(
                                    spec_acc_init(aggregates@[j as int]),
                                    vals_full.take(i as int + 1),
                                ) is None);
                                lemma_fold_none_extends(
                                    spec_acc_init(aggregates@[j as int]),
                                    vals_full,
                                    i as int + 1,
                                );
                            }
                            assert(spec_ungrouped(all, aggregates@, j as int + 1) is None);
                            lemma_ungrouped_none_lifts(all, aggregates@, j as int + 1, an as int);
                        }
                    }
                    return Err(e);
                },
            }
            proof {
                if gn == 0 {
                    assert(spec_eval_vals(all.take(i as int + 1), spec_agg_expr(
                        aggregates@[j as int],
                    )).drop_last() =~= spec_eval_vals(all.take(i as int), spec_agg_expr(
                        aggregates@[j as int],
                    )));
                    assert(spec_eval_vals(all.take(i as int + 1), spec_agg_expr(
                        aggregates@[j as int],
                    )).last() == value@);
                }
            }
            j = j + 1;
        }
        let _consumed = rest.remove(0);
        proof {
            assert(rest@ =~= all.skip(i as int + 1));
            // the distinct keys grow exactly when the key was new
            assert(spec_distinct_keys(all.take(i as int + 1), group_by@) == (if spec_kv_in(
                dk_prev,
                key_view,
            ) {
                dk_prev
            } else {
                dk_prev.push(key_view)
            }));
            assert forall|b: int| 0 <= b < buckets@.len() implies Seq::new(
                (#[trigger] buckets@[b]).0@.len(),
                |q: int| (buckets@[b].0@[q])@,
            ) == spec_distinct_keys(all.take(i as int + 1), group_by@)[b] by {
                if !found && b == buckets@.len() - 1 {
                    assert(Seq::new(buckets@[b].0@.len(), |q: int| (buckets@[b].0@[q])@)
                        =~= key_view);
                }
            }
            assert(spec_keys_ok(all.take(i as int + 1), group_by@)) by {
                assert forall|y: int, g2: int|
                    0 <= y < i + 1 && 0 <= g2 < gn implies spec_eval(
                    #[trigger] group_by@[g2],
                    Some((#[trigger] all.take(i as int + 1)[y]).1@),
                ) is Value by {
                    if y < i as int {
                        assert(all.take(i as int + 1)[y] == all.take(i as int)[y]);
                    } else {
                        assert(all.take(i as int + 1)[y] == all[i as int]);
                    }
                }
            }
        }
        i = i + 1;
    }
    proof {
        assert(all.take(n as int) =~= all);
    }
    // turn the buckets into output rows: key fields, then aggregate values
    let mut out: Rows = Vec::new();
    if buckets.len() == 0 && gn == 0 {
        proof {
            lemma_ungrouped_empty(all, aggregates@, an as int);
        }
        let mut fields: Vec<Field> = Vec::new();
        let mut j: usize = 0;
        while j < an
            invariant
                all == source@,
                all.len() == 0,
                an == aggregates@.len(),
                j <= an,
                fields@.len() == j,
                forall|y: int|
                    0 <= y < j ==> Some((#[trigger] fields@[y])@) == Some(
                        spec_ungrouped(all, aggregates@, an as int)->0[y],
                    ),
            decreases an - j,
        {
            proof {
                lemma_ungrouped_empty(all, aggregates@, an as int);
                assert(spec_eval_vals(all, spec_agg_expr(aggregates@[j as int])) =~= Seq::<
                    FieldView,
                >::empty());
            }
            let value = match Accumulator::new(&aggregates[j]).value() {
                Ok(v) => v,
                Err(e) => {
                    proof {
                        assert(false);
                    }
                    return Err(e);
                },
            };
            fields.push(value);
            j = j + 1;
        }
        out.push((invalid_rid, Row::new(fields)));
        proof {
            assert(out@[0].1@ =~= spec_ungrouped(all, aggregates@, an as int)->0);
            assert(spec_distinct_keys(all, group_by@) =~= Seq::<Seq<FieldView>>::empty());
        }
        return Ok(out);
    }
    let ghost dk = spec_distinct_keys(all, group_by@);
    let mut rest_buckets = buckets;
    let ghost total = rest_buckets@.len();
    let ghost buckets_all = rest_buckets@;
    while rest_buckets.len() > 0
        invariant
            all == source@,
            gn == group_by@.len(),
            an == aggregates@.len(),
            dk == spec_distinct_keys(all, group_by@),
            total == dk.len(),
            buckets_all.len() == total,
            out@.len() + rest_buckets@.len() == total,
            rest_buckets@ =~= buckets_all.skip(out@.len() as int),
            forall|b: int| 0 <= b < buckets_all.len() ==> (#[trigger] buckets_all[b]).0@.len() == gn,
            forall|b: int| 0 <= b < buckets_all.len() ==> (#[trigger] buckets_all[b]).1@.len() == an,
            forall|b: int|
                0 <= b < buckets_all.len() ==> Seq::new(
                    (#[trigger] buckets_all[b]).0@.len(),
                    |q: int| (buckets_all[b].0@[q])@,
                ) == dk[b],
            gn == 0 ==> (forall|j: int|
                0 <= j < an ==> spec_col_ok(all, spec_agg_expr(#[trigger] aggregates@[j]))),
            gn == 0 && buckets_all.len() == 1 ==> (forall|j: int|
                0 <= j < an ==> Some(spec_acc_view(#[trigger] buckets_all[0].1@[j]))
                    == spec_acc_fold(
                    spec_acc_init(aggregates@[j]),
                    spec_eval_vals(all, spec_agg_expr(aggregates@[j])),
                )),
            forall|x: int|
                0 <= x < out@.len() ==> (#[trigger] out@[x]).1@.len() == gn + an,
            forall|x: int| 0 <= x < out@.len() ==> (#[trigger] out@[x]).0 == invalid_rid,
            gn > 0 ==> (forall|x: int|
                0 <= x < out@.len() ==> (#[trigger] out@[x]).1@.subrange(0, gn as int) == dk[x]),
            gn == 0 ==> buckets_all.len() == 1,
            gn == 0 && out@.len() > 0 ==> Some(out@[0].1@) == spec_ungrouped(
                all,
                aggregates@,
                an as int,
            ),
        decreases rest_buckets@.len(),
    {
        let ghost prev = rest_buckets@;
        let ghost done = out@.len() as int;
        let (key, accs) = rest_buckets.remove(0);
        proof {
            assert(rest_buckets@ =~= prev.remove(0));
            assert(prev[0] == buckets_all[done]);
            assert(rest_buckets@ =~= buckets_all.skip(done + 1));
        }
        let mut fields: Vec<Field> = key;
        let mut rest_accs = accs;
        let ghost accs0 = rest_accs@;
        let mut j: usize = 0;
        while rest_accs.len() > 0
            invariant
                all == source@,
                gn == group_by@.len(),
                an == aggregates@.len(),
                accs0.len() == an,
                j + rest_accs@.len() == an,
                rest_accs@ =~= accs0.skip(j as int),
                fields@.len() == gn + j,
                forall|q: int|
                    0 <= q < gn ==> (#[trigger] fields@[q])@ == Seq::new(
                        (buckets_all[done]).0@.len(),
                        |z: int| (buckets_all[done].0@[z])@,
                    )[q],
                gn == 0 && buckets_all.len() == 1 && done == 0 ==> (forall|y: int|
                    0 <= y < an ==> Some(spec_acc_view(#[trigger] accs0[y])) == spec_acc_fold(
                        spec_acc_init(aggregates@[y]),
                        spec_eval_vals(all, spec_agg_expr(aggregates@[y])),
                    )),
                gn == 0 ==> (forall|y: int|
                    0 <= y < an ==> spec_col_ok(all, spec_agg_expr(#[trigger] aggregates@[y]))),
                gn == 0 && done == 0 && buckets_all.len() == 1 ==> spec_ungrouped(
                    all,
                    aggregates@,
                    j as int,
                ) == Some(Seq::new(j as nat, |y: int| (fields@[y])@)),
                accs0 == buckets_all[done].1@,
                done < buckets_all.len(),
                gn == 0 ==> done == 0 && buckets_all.len() == 1,
            decreases rest_accs@.len(),
        {
            proof {
                assert(rest_accs@[0] == accs0[j as int]);
            }
            let acc = rest_accs.remove(0);
            proof {
                assert(rest_accs@ =~= accs0.skip(j as int + 1));
            }
            let value = match acc.value() {
                Ok(v) => v,
                Err(e) => {
                    proof {
                        if gn == 0 && done == 0 && buckets_all.len() == 1 {
                            assert(spec_ungrouped(all, aggregates@, j as int + 1) is None);
                            lemma_ungrouped_none_lifts(all, aggregates@, j as int + 1, an as int);
                        }
                    }
                    return Err(e);
                },
            };
            fields.push(value);
            proof {
                if gn == 0 && done == 0 && buckets_all.len() == 1 {
                    assert(spec_ungrouped(all, aggregates@, j as int + 1) == Some(Seq::new(
                        (j + 1) as nat,
                        |y: int| (fields@[y])@,
                    ))) by {
                        assert(spec_ungrouped(all, aggregates@, j as int)->0.push(value@)
                            =~= Seq::new((j + 1) as nat, |y: int| (fields@[y])@));
                    }
                }
            }
            j = j + 1;
        }
        let row = Row::new(fields);
        proof {
            if gn > 0 {
                assert(row@.subrange(0, gn as int) =~= dk[done]);
            }
            if gn == 0 && done == 0 && buckets_all.len() == 1 {
                assert(spec_ungrouped(all, aggregates@, an as int) == Some(row@)) by {
                    assert(Seq::new(an as nat, |y: int| (fields@[y])@) =~= row@);
                }
            }
        }
        out.push((invalid_rid, row));
    }
    proof {
        if gn == 0 {
            assert(buckets_all.len() == 1) by {
                assert(total == dk.len());
            }
        }
    }
    Ok(out)
}


/// The expression an aggregate evaluates per row.
fn agg_expr(aggregate: &Aggregate) -> (r: &Expression)
    ensures
        *r == spec_agg_expr(*aggregate),
{
    match aggregate {
        Aggregate::Average(e) => e,
        Aggregate::Count(e) => e,
        Aggregate::Max(e) => e,
        Aggregate::Min(e) => e,
        Aggregate::Sum(e) => e,
    }
}

} // verus!
