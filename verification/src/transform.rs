use vstd::prelude::*;

use crate::errors::Error;
use crate::expression::{spec_eval, EvalOutcome, Expression};
use crate::field::{spec_field_cmp, Field, FieldView};
use crate::plan::Direction;
use crate::record_id::RecordId;
use crate::row::Row;

verus! {

/// The rows an execution operator consumes and produces.
pub type Rows = Vec<(RecordId, Row)>;

/// What filtering a row sequence yields: the kept rows, or nothing when
/// some predicate evaluation fails or yields a non-boolean, non-null value.
pub open spec fn spec_filter(rows: Seq<(RecordId, Row)>, predicate: Expression) -> Option<
    Seq<(RecordId, Row)>,
>
    decreases rows.len(),
{
    if rows.len() == 0 {
        Some(Seq::empty())
    } else {
        match spec_filter(rows.drop_last(), predicate) {
            Some(kept) => match spec_eval(predicate, Some(rows.last().1@)) {
                EvalOutcome::Value(FieldView::Boolean(true)) => Some(kept.push(rows.last())),
                EvalOutcome::Value(FieldView::Boolean(false)) => Some(kept),
                EvalOutcome::Value(FieldView::Null) => Some(kept),
                _ => Option::None,
            },
            Option::None => Option::None,
        }
    }
}

/// A failure while filtering a prefix dooms the whole sequence.
proof fn lemma_filter_none_extends(rows: Seq<(RecordId, Row)>, predicate: Expression, m: int)
    requires
        0 <= m <= rows.len(),
        spec_filter(rows.take(m), predicate) is None,
    ensures
        spec_filter(rows, predicate) is None,
    decreases rows.len() - m,
{
    if m == rows.len() {
        assert(rows.take(m) =~= rows);
    } else {
        assert(rows.take(m + 1).drop_last() =~= rows.take(m));
        lemma_filter_none_extends(rows, predicate, m + 1);
    }
}

/// Keeps the source rows whose predicate holds; a null predicate value
/// drops the row, and any other non-boolean value is an error.
/// Filtering keeps only rows of the input, so a width bound on the input
/// bounds every kept row.
pub proof fn lemma_filter_widths(rows: Seq<(RecordId, Row)>, predicate: Expression, w: int)
    requires
        forall|x: int| 0 <= x < rows.len() ==> (#[trigger] rows[x]).1@.len() == w,
        spec_filter(rows, predicate) is Some,
    ensures
        forall|x: int|
            0 <= x < spec_filter(rows, predicate)->0.len() ==> (#[trigger] spec_filter(
                rows,
                predicate,
            )->0[x]).1@.len() == w,
    decreases rows.len(),
{
    if rows.len() > 0 {
        assert forall|x: int|
            0 <= x < rows.drop_last().len() implies (#[trigger] rows.drop_last()[x]).1@.len()
                == w by {
            assert(rows.drop_last()[x] == rows[x]);
        }
        lemma_filter_widths(rows.drop_last(), predicate, w);
        assert(rows.last().1@.len() == w);
    }
}

pub fn filter(source: Rows, predicate: Expression) -> (r: Result<Rows, Error>)
    ensures
        r is Ok <==> spec_filter(source@, predicate) is Some,
        r matches Ok(v) ==> spec_filter(source@, predicate) == Some(v@),
{
    let mut out: Rows = Vec::new();
    let mut rest = source;
    let ghost all = rest@;
    let n = rest.len();
    let mut i: usize = 0;
    proof {
        assert(all.take(0) =~= Seq::<(RecordId, Row)>::empty());
        assert(all.skip(0) =~= all);
    }
    while i < n
        invariant
            all == source@,
            n == all.len(),
            i <= n,
            rest@ == all.skip(i as int),
            spec_filter(all.take(i as int), predicate) == Some(out@),
        decreases n - i,
    {
        proof {
            assert(all.take(i as int + 1).drop_last() =~= all.take(i as int));
            assert(all.take(i as int + 1).last() == all[i as int]);
            assert(rest@[0] == all[i as int]);
        }
        let keep = match predicate.evaluate(Some(&rest[0].1)) {
            Ok(Field::Boolean(true)) => true,
            Ok(Field::Boolean(false)) => false,
            Ok(Field::Null) => false,
            Ok(other) => {
                proof {
                    assert(spec_eval(predicate, Some(all[i as int].1@))
                        == EvalOutcome::Value(other@));
                    assert(spec_filter(all.take(i as int + 1), predicate) is None);
                    lemma_filter_none_extends(all, predicate, i as int + 1);
                }
                return Err(
                    Error::InvalidInput("a filter predicate must yield a boolean".to_string()),
                );
            },
            Err(e) => {
                proof {
                    assert(spec_filter(all.take(i as int + 1), predicate) is None);
                    lemma_filter_none_extends(all, predicate, i as int + 1);
                }
                return Err(e);
            },
        };
        let item = rest.remove(0);
        proof {
            assert(rest@ =~= all.skip(i as int + 1));
        }
        if keep {
            out.push(item);
        }
        i = i + 1;
    }
    proof {
        assert(all.take(n as int) =~= all);
    }
    Ok(out)
}

/// Emits only the first `count` rows of the source.
pub fn limit(source: Rows, count: usize) -> (r: Rows)
    ensures
        r@ == (if count <= source@.len() {
            source@.take(count as int)
        } else {
            source@
        }),
{
    let mut out = source;
    let ghost all = out@;
    if count < out.len() {
        out.truncate(count);
        proof {
            assert(out@ =~= all.take(count as int));
        }
    } else {
        proof {
            if count <= all.len() {
                assert(all.take(count as int) =~= all);
            }
        }
    }
    out
}

/// Skips the first `count` rows of the source.
pub fn offset(source: Rows, count: usize) -> (r: Rows)
    ensures
        r@ == (if count <= source@.len() {
            source@.skip(count as int)
        } else {
            Seq::<(RecordId, Row)>::empty()
        }),
{
    let mut head = source;
    let ghost all = head@;
    let at = if count < head.len() {
        count
    } else {
        head.len()
    };
    let tail = head.split_off(at);
    proof {
        if count <= all.len() {
            assert(tail@ =~= all.skip(count as int));
        } else {
            assert(tail@ =~= Seq::<(RecordId, Row)>::empty());
        }
    }
    tail
}

/// Whether every projection expression evaluates on every source row.
pub open spec fn spec_project_ok(rows: Seq<(RecordId, Row)>, exprs: Seq<Expression>) -> bool {
    forall|i: int, j: int|
        0 <= i < rows.len() && 0 <= j < exprs.len() ==> spec_eval(
            #[trigger] exprs[j],
            Some(#[trigger] rows[i].1@),
        ) is Value
}

/// The value an expression takes with no row at hand.
pub open spec fn spec_projected_none(e: Expression) -> FieldView {
    match spec_eval(e, Option::None) {
        EvalOutcome::Value(v) => v,
        EvalOutcome::Failure => FieldView::Null,
    }
}

/// The value the `j`-th projection expression takes on a row.
pub open spec fn spec_projected(row: Seq<FieldView>, e: Expression) -> FieldView {
    match spec_eval(e, Some(row)) {
        EvalOutcome::Value(v) => v,
        EvalOutcome::Failure => FieldView::Null,
    }
}

/// Projects each source row through the given expressions: one output
/// column per expression.
pub fn project(source: Rows, expressions: Vec<Expression>) -> (r: Result<Rows, Error>)
    ensures
        r is Ok <==> spec_project_ok(source@, expressions@),
        r matches Ok(v) ==> {
            &&& v@.len() == source@.len()
            &&& (forall|i: int| 0 <= i < v@.len() ==> (#[trigger] v@[i]).0 == source@[i].0)
            &&& (forall|i: int|
                0 <= i < v@.len() ==> (#[trigger] v@[i]).1@.len() == expressions@.len())
            &&& (forall|i: int, j: int|
                0 <= i < v@.len() && 0 <= j < expressions@.len() ==> (#[trigger] v@[i].1@[j])
                    == spec_projected(source@[i].1@, expressions@[j]))
        },
{
    let mut out: Rows = Vec::new();
    let n = source.len();
    let en = expressions.len();
    let mut i: usize = 0;
    while i < n
        invariant
            n == source@.len(),
            en == expressions@.len(),
            i <= n,
            out@.len() == i,
            forall|x: int, j: int|
                0 <= x < i && 0 <= j < en ==> spec_eval(
                    #[trigger] expressions@[j],
                    Some(#[trigger] source@[x].1@),
                ) is Value,
            forall|x: int| 0 <= x < i ==> (#[trigger] out@[x]).0 == source@[x].0,
            forall|x: int| 0 <= x < i ==> (#[trigger] out@[x]).1@.len() == en,
            forall|x: int, j: int|
                0 <= x < i && 0 <= j < en ==> (#[trigger] out@[x].1@[j]) == spec_projected(
                    source@[x].1@,
                    expressions@[j],
                ),
        decreases n - i,
    {
        let mut fields: Vec<Field> = Vec::new();
        let mut j: usize = 0;
        while j < en
            invariant
                n == source@.len(),
                en == expressions@.len(),
                i < n,
                j <= en,
                fields@.len() == j,
                forall|y: int|
                    0 <= y < j ==> spec_eval(
                        #[trigger] expressions@[y],
                        Some(source@[i as int].1@),
                    ) is Value,
                forall|y: int|
                    0 <= y < j ==> (#[trigger] fields@[y])@ == spec_projected(
                        source@[i as int].1@,
                        expressions@[y],
                    ),
            decreases en - j,
        {
            let value = match expressions[j].evaluate(Some(&source[i].1)) {
                Ok(v) => v,
                Err(e) => {
                    proof {
                        assert(spec_eval(expressions@[j as int], Some(source@[i as int].1@))
                            is Failure);
                        assert(!spec_project_ok(source@, expressions@));
                    }
                    return Err(e);
                },
            };
            fields.push(value);
            j = j + 1;
        }
        let rid = source[i].0;
        let new_row = Row::new(fields);
        out.push((rid, new_row));
        i = i + 1;
    }
    Ok(out)
}

/// The value a remapped row holds at one target position: the last source
/// column the targets send there, or null when none reaches it.
pub open spec fn spec_remap_cell(
    row: Seq<FieldView>,
    targets: Seq<Option<usize>>,
    t: usize,
) -> FieldView
    decreases targets.len(),
{
    if targets.len() == 0 {
        FieldView::Null
    } else if targets.last() == Some(t) && targets.len() - 1 < row.len() {
        row[targets.len() - 1]
    } else {
        spec_remap_cell(row, targets.drop_last(), t)
    }
}

/// Moves each source column to its target position, dropping unmapped
/// columns; target positions nothing maps to hold null.
pub fn remap(source: Rows, targets: Vec<Option<usize>>) -> (r: Rows)
    requires
        crate::plan::spec_remap_size(targets@) <= usize::MAX,
    ensures
        r@.len() == source@.len(),
        forall|i: int| 0 <= i < r@.len() ==> (#[trigger] r@[i]).0 == source@[i].0,
        forall|i: int|
            0 <= i < r@.len() ==> (#[trigger] r@[i]).1@.len() == crate::plan::spec_remap_size(
                targets@,
            ),
        forall|i: int, t: int|
            0 <= i < r@.len() && 0 <= t < crate::plan::spec_remap_size(targets@) ==> (
            #[trigger] r@[i].1@[t]) == spec_remap_cell(source@[i].1@, targets@, t as usize),
{
    let size = crate::plan::remap_width(&targets);
    let mut out: Rows = Vec::new();
    let n = source.len();
    let mut i: usize = 0;
    while i < n
        invariant
            n == source@.len(),
            i <= n,
            out@.len() == i,
            size == crate::plan::spec_remap_size(targets@),
            size <= usize::MAX,
            forall|x: int| 0 <= x < i ==> (#[trigger] out@[x]).0 == source@[x].0,
            forall|x: int| 0 <= x < i ==> (#[trigger] out@[x]).1@.len() == size,
            forall|x: int, y: int|
                0 <= x < i && 0 <= y < size ==> (#[trigger] out@[x].1@[y]) == spec_remap_cell(
                    source@[x].1@,
                    targets@,
                    y as usize,
                ),
        decreases n - i,
    {
        let mut fields: Vec<Field> = Vec::new();
        let mut t: usize = 0;
        while t < size
            invariant
                t <= size,
                fields@.len() == t,
                forall|y: int| 0 <= y < t ==> (#[trigger] fields@[y])@ == FieldView::Null,
            decreases size - t,
        {
            fields.push(Field::Null);
            t = t + 1;
        }
        let row = &source[i].1;
        let m = targets.len();
        let mut s: usize = 0;
        proof {
            assert(targets@.take(0) =~= Seq::<Option<usize>>::empty());
        }
        while s < m
            invariant
                m == targets@.len(),
                s <= m,
                n == source@.len(),
                i < n,
                fields@.len() == size,
                size == crate::plan::spec_remap_size(targets@),
                size <= usize::MAX,
                row == &source@[i as int].1,
                forall|y: int|
                    0 <= y < size ==> (#[trigger] fields@[y])@ == spec_remap_cell(
                        source@[i as int].1@,
                        targets@.take(s as int),
                        y as usize,
                    ),
            decreases m - s,
        {
            proof {
                assert(targets@.take(s as int + 1).drop_last() =~= targets@.take(s as int));
                assert(targets@.take(s as int + 1).last() == targets@[s as int]);
                crate::plan::lemma_remap_size_prefix(targets@, s as int + 1, m as int);
            }
            let ghost fields_prev = fields@;
            match targets[s] {
                Some(to) => {
                    proof {
                        assert(crate::plan::spec_remap_size(targets@.take(s as int + 1)) >= to
                            + 1);
                    }
                    if to < fields.len() && s < row.size() {
                        fields.set(to, row.field_at(s).clone());
                    }
                },
                Option::None => {},
            }
            proof {
                assert forall|y: int| 0 <= y < size implies (#[trigger] fields@[y])@
                    == spec_remap_cell(
                    source@[i as int].1@,
                    targets@.take(s as int + 1),
                    y as usize,
                ) by {
                    if !(targets@[s as int] == Some(y as usize) && s < source@[i as int].1@.len()) {
                        assert(fields@[y] == fields_prev[y]);
                    }
                }
            }
            s = s + 1;
        }
        proof {
            assert(targets@.take(m as int) =~= targets@);
        }
        let rid = source[i].0;
        out.push((rid, Row::new(fields)));
        i = i + 1;
    }
    out
}

/// Lexicographic order on two evaluated sort keys, honoring per-key
/// directions: the first differing key decides.
pub open spec fn spec_keys_le(a: Seq<FieldView>, b: Seq<FieldView>, dirs: Seq<Direction>) -> bool
    decreases dirs.len(),
{
    if dirs.len() == 0 || a.len() == 0 || b.len() == 0 {
        true
    } else {
        match spec_field_cmp(a[0], b[0]) {
            core::cmp::Ordering::Equal => spec_keys_le(
                a.drop_first(),
                b.drop_first(),
                dirs.drop_first(),
            ),
            core::cmp::Ordering::Less => dirs[0] is Ascending,
            core::cmp::Ordering::Greater => dirs[0] is Descending,
        }
    }
}

/// Whether the given sort keys order one row at or before another.
fn keys_le(a: &Vec<Field>, b: &Vec<Field>, dirs: &Vec<Direction>) -> (r: bool)
    requires
        a@.len() == b@.len(),
        a@.len() == dirs@.len(),
    ensures
        r == spec_keys_le(
            Seq::new(a@.len(), |x: int| a@[x]@),
            Seq::new(b@.len(), |x: int| b@[x]@),
            dirs@,
        ),
{
    let n = dirs.len();
    let ghost av = Seq::new(a@.len(), |x: int| a@[x]@);
    let ghost bv = Seq::new(b@.len(), |x: int| b@[x]@);
    let mut i: usize = 0;
    proof {
        assert(av.skip(0) =~= av);
        assert(bv.skip(0) =~= bv);
        assert(dirs@.skip(0) =~= dirs@);
    }
    while i < n
        invariant
            n == dirs@.len(),
            a@.len() == n,
            b@.len() == n,
            av == Seq::new(a@.len(), |x: int| a@[x]@),
            bv == Seq::new(b@.len(), |x: int| b@[x]@),
            i <= n,
            spec_keys_le(av, bv, dirs@) == spec_keys_le(
                av.skip(i as int),
                bv.skip(i as int),
                dirs@.skip(i as int),
            ),
        decreases n - i,
    {
        proof {
            assert(av.skip(i as int)[0] == av[i as int]);
            assert(bv.skip(i as int)[0] == bv[i as int]);
            assert(dirs@.skip(i as int)[0] == dirs@[i as int]);
            assert(av.skip(i as int).drop_first() =~= av.skip(i as int + 1));
            assert(bv.skip(i as int).drop_first() =~= bv.skip(i as int + 1));
            assert(dirs@.skip(i as int).drop_first() =~= dirs@.skip(i as int + 1));
        }
        match a[i].cmp(&b[i]) {
            core::cmp::Ordering::Equal => {},
            core::cmp::Ordering::Less => {
                return dirs[i] == Direction::Ascending;
            },
            core::cmp::Ordering::Greater => {
                return dirs[i] == Direction::Descending;
            },
        }
        i = i + 1;
    }
    true
}

/// The evaluated sort key of a row: one field value per key expression.
pub open spec fn spec_sort_key(row: Seq<FieldView>, keys: Seq<(Expression, Direction)>) -> Seq<
    FieldView,
> {
    Seq::new(keys.len(), |j: int| crate::transform::spec_projected(row, keys[j].0))
}

/// Whether every key expression evaluates on every source row.
pub open spec fn spec_order_ok(rows: Seq<(RecordId, Row)>, keys: Seq<(Expression, Direction)>) -> bool {
    forall|i: int, j: int|
        0 <= i < rows.len() && 0 <= j < keys.len() ==> spec_eval(
            (#[trigger] keys[j]).0,
            Some(#[trigger] rows[i].1@),
        ) is Value
}

/// The direction of each sort key.
pub open spec fn spec_dirs(keys: Seq<(Expression, Direction)>) -> Seq<Direction> {
    Seq::new(keys.len(), |j: int| keys[j].1)
}

/// Swapping the operands of the byte comparison flips its answer.
pub proof fn lemma_lex_cmp_flip(a: Seq<u8>, b: Seq<u8>)
    ensures
        (crate::field::spec_lex_cmp(a, b) == core::cmp::Ordering::Less)
            <==> (crate::field::spec_lex_cmp(b, a) == core::cmp::Ordering::Greater),
        (crate::field::spec_lex_cmp(a, b) == core::cmp::Ordering::Equal)
            <==> (crate::field::spec_lex_cmp(b, a) == core::cmp::Ordering::Equal),
    decreases a.len(),
{
    if a.len() > 0 && b.len() > 0 && a[0] == b[0] {
        lemma_lex_cmp_flip(a.drop_first(), b.drop_first());
    }
}

/// Whether a row stands somewhere in the given row list.
pub open spec fn spec_row_among(item: (RecordId, Row), rows: Seq<(RecordId, Row)>) -> bool {
    exists|y: int| 0 <= y < rows.len() && item == rows[y]
}

/// The float bit order never holds both ways at once.
pub proof fn lemma_f32_lt_asym(x: u32, y: u32)
    ensures
        !(crate::field::spec_f32_bits_lt(x, y) && crate::field::spec_f32_bits_lt(y, x)),
{
    assert(!(((x >> 31) != (y >> 31) && (x >> 31) == 1u32 && !((x & 0x7fffffff) == 0 && (y
        & 0x7fffffff) == 0) || (x >> 31) == (y >> 31) && (x >> 31) == 0 && (x & 0x7fffffff) < (y
        & 0x7fffffff) || (x >> 31) == (y >> 31) && (x >> 31) != 0 && (y & 0x7fffffff) < (x
        & 0x7fffffff)) && ((y >> 31) != (x >> 31) && (y >> 31) == 1u32 && !((y & 0x7fffffff) == 0
        && (x & 0x7fffffff) == 0) || (y >> 31) == (x >> 31) && (y >> 31) == 0 && (y & 0x7fffffff)
        < (x & 0x7fffffff) || (y >> 31) == (x >> 31) && (y >> 31) != 0 && (x & 0x7fffffff) < (y
        & 0x7fffffff)))) by (bit_vector);
}

/// Swapping the operands of the field comparison flips its answer.
pub proof fn lemma_field_cmp_flip(a: FieldView, b: FieldView)
    ensures
        (spec_field_cmp(a, b) == core::cmp::Ordering::Less) <==> (spec_field_cmp(b, a)
            == core::cmp::Ordering::Greater),
        (spec_field_cmp(a, b) == core::cmp::Ordering::Equal) <==> (spec_field_cmp(b, a)
            == core::cmp::Ordering::Equal),
{
    match (a, b) {
        (FieldView::Text(x), FieldView::Text(y)) => {
            lemma_lex_cmp_flip(vstd::utf8::encode_utf8(x), vstd::utf8::encode_utf8(y));
        },
        (FieldView::Float(x), FieldView::Float(y)) => {
            lemma_f32_lt_asym(x, y);
        },
        _ => {},
    }
}

/// One of the two key orders always holds: the sort order is total.
pub proof fn lemma_keys_le_total(a: Seq<FieldView>, b: Seq<FieldView>, dirs: Seq<Direction>)
    ensures
        spec_keys_le(a, b, dirs) || spec_keys_le(b, a, dirs),
    decreases dirs.len(),
{
    if dirs.len() > 0 && a.len() > 0 && b.len() > 0 {
        lemma_field_cmp_flip(a[0], b[0]);
        match spec_field_cmp(a[0], b[0]) {
            core::cmp::Ordering::Equal => {
                lemma_keys_le_total(a.drop_first(), b.drop_first(), dirs.drop_first());
            },
            _ => {},
        }
    }
}

/// Whether a row stands somewhere in the given row list.
/// The directions of the sort keys, in order.
fn key_dirs_of(keys: &Vec<(Expression, Direction)>) -> (r: Vec<Direction>)
    ensures
        r@ == spec_dirs(keys@),
{
    let mut dirs: Vec<Direction> = Vec::new();
    let n = keys.len();
    let mut i: usize = 0;
    while i < n
        invariant
            n == keys@.len(),
            i <= n,
            dirs@.len() == i,
            forall|x: int| 0 <= x < i ==> (#[trigger] dirs@[x]) == keys@[x].1,
        decreases n - i,
    {
        dirs.push(keys[i].1);
        i = i + 1;
    }
    proof {
        assert(dirs@ =~= spec_dirs(keys@));
    }
    dirs
}

} // verus!

verus! {

/// The key-and-row pairs' row halves, in order.
pub open spec fn spec_pairs(items: Seq<(Vec<Field>, (RecordId, Row))>) -> Seq<(RecordId, Row)> {
    Seq::new(items.len(), |i: int| items[i].1)
}

/// The cached key of one keyed row, as field values.
pub open spec fn spec_key_view(item: (Vec<Field>, (RecordId, Row))) -> Seq<FieldView> {
    Seq::new(item.0@.len(), |q: int| (item.0@[q])@)
}

/// A keyed row whose cached key is its row's evaluated sort key.
pub open spec fn spec_keyed_ok(
    item: (Vec<Field>, (RecordId, Row)),
    keys: Seq<(Expression, Direction)>,
) -> bool {
    spec_key_view(item) =~= spec_sort_key(item.1.1@, keys)
}

/// Where a stable sort puts one more row: right after the last row already
/// placed whose key stands at or before the new row's, so rows with equal
/// keys keep their input order.
pub open spec fn spec_insert_sorted(
    acc: Seq<(RecordId, Row)>,
    item: (RecordId, Row),
    keys: Seq<(Expression, Direction)>,
    dirs: Seq<Direction>,
) -> Seq<(RecordId, Row)>
    decreases acc.len(),
{
    if acc.len() == 0 {
        seq![item]
    } else if spec_keys_le(
        spec_sort_key(acc.last().1@, keys),
        spec_sort_key(item.1@, keys),
        dirs,
    ) {
        acc.push(item)
    } else {
        spec_insert_sorted(acc.drop_last(), item, keys, dirs).push(acc.last())
    }
}

/// The stable sort of the rows under the given keys: each row, in input
/// order, inserted after the placed rows whose keys stand at or before it.
pub open spec fn spec_stable_sort(
    rows: Seq<(RecordId, Row)>,
    keys: Seq<(Expression, Direction)>,
    dirs: Seq<Direction>,
) -> Seq<(RecordId, Row)>
    decreases rows.len(),
{
    if rows.len() == 0 {
        Seq::empty()
    } else {
        spec_insert_sorted(spec_stable_sort(rows.drop_last(), keys, dirs), rows.last(), keys, dirs)
    }
}

/// Inserting at the position found by walking back over the rows whose
/// keys stand strictly after the new row's lands where the stable-insert
/// spec puts it.
proof fn lemma_insert_at(
    acc: Seq<(RecordId, Row)>,
    item: (RecordId, Row),
    keys: Seq<(Expression, Direction)>,
    dirs: Seq<Direction>,
    p: int,
)
    requires
        0 <= p <= acc.len(),
        forall|q: int|
            p <= q < acc.len() ==> !spec_keys_le(
                spec_sort_key((#[trigger] acc[q]).1@, keys),
                spec_sort_key(item.1@, keys),
                dirs,
            ),
        p > 0 ==> spec_keys_le(
            spec_sort_key(acc[p - 1].1@, keys),
            spec_sort_key(item.1@, keys),
            dirs,
        ),
    ensures
        spec_insert_sorted(acc, item, keys, dirs) == acc.take(p).push(item) + acc.skip(p),
    decreases acc.len(),
{
    if acc.len() == 0 {
        assert(acc.take(p).push(item) + acc.skip(p) =~= seq![item]);
    } else if spec_keys_le(
        spec_sort_key(acc.last().1@, keys),
        spec_sort_key(item.1@, keys),
        dirs,
    ) {
        assert(p == acc.len());
        assert(acc.take(p).push(item) + acc.skip(p) =~= acc.push(item));
    } else {
        assert(p < acc.len());
        let dl = acc.drop_last();
        assert forall|q: int|
            p <= q < dl.len() implies !spec_keys_le(
            spec_sort_key((#[trigger] dl[q]).1@, keys),
            spec_sort_key(item.1@, keys),
            dirs,
        ) by {
            assert(dl[q] == acc[q]);
        }
        if p > 0 {
            assert(dl[p - 1] == acc[p - 1]);
        }
        lemma_insert_at(dl, item, keys, dirs, p);
        assert(spec_insert_sorted(acc, item, keys, dirs) =~= acc.take(p).push(item) + acc.skip(
            p,
        )) by {
            assert(dl.take(p) =~= acc.take(p));
            assert((dl.take(p).push(item) + dl.skip(p)).push(acc.last()) =~= acc.take(p).push(
                item,
            ) + acc.skip(p));
        }
    }
}

/// Sorts the source rows by the given key expressions and directions: the
/// output is a rearrangement of the input in which each row's evaluated
/// key stands at or before the next row's, with equal keys kept in their
/// input order.
#[verifier::rlimit(100)]
pub fn order(source: Rows, order_keys: Vec<(Expression, Direction)>) -> (r: Result<Rows, Error>)
    ensures
        r is Ok <==> spec_order_ok(source@, order_keys@),
        r matches Ok(v) ==> {
            &&& v@.len() == source@.len()
            &&& v@.to_multiset() == source@.to_multiset()
            &&& (forall|x: int|
                0 <= x && x + 1 < v@.len() ==> spec_keys_le(
                    spec_sort_key((#[trigger] v@[x]).1@, order_keys@),
                    spec_sort_key(v@[x + 1].1@, order_keys@),
                    spec_dirs(order_keys@),
                ))
            &&& v@ == spec_stable_sort(source@, order_keys@, spec_dirs(order_keys@))
        },
{
    broadcast use vstd::seq_lib::group_to_multiset_ensures;
    broadcast use vstd::seq_lib::lemma_multiset_commutative;
    broadcast use vstd::multiset::group_multiset_axioms;

    let kn = order_keys.len();
    // evaluate every row's key up front
    let mut keyed: Vec<(Vec<Field>, (RecordId, Row))> = Vec::new();
    let mut rest = source;
    let ghost all = rest@;
    let n = rest.len();
    let mut i: usize = 0;
    proof {
        assert(rest@ =~= all.skip(0));
    }
    while i < n
        invariant
            all == source@,
            n == all.len(),
            kn == order_keys@.len(),
            i <= n,
            rest@ == all.skip(i as int),
            keyed@.len() == i,
            forall|x: int| 0 <= x < i ==> (#[trigger] keyed@[x]).1 == all[x],
            forall|x: int| 0 <= x < i ==> (#[trigger] keyed@[x]).0@.len() == kn,
            forall|x: int| 0 <= x < i ==> spec_keyed_ok(#[trigger] keyed@[x], order_keys@),
            forall|x: int, j: int|
                0 <= x < i && 0 <= j < kn ==> spec_eval(
                    (#[trigger] order_keys@[j]).0,
                    Some((#[trigger] keyed@[x]).1.1@),
                ) is Value,
        decreases n - i,
    {
        proof {
            assert(rest@[0] == all[i as int]);
        }
        let mut key: Vec<Field> = Vec::new();
        let mut j: usize = 0;
        while j < kn
            invariant
                all == source@,
                kn == order_keys@.len(),
                i < n,
                n == all.len(),
                rest@ == all.skip(i as int),
                rest@[0] == all[i as int],
                j <= kn,
                key@.len() == j,
                forall|y: int|
                    0 <= y < j ==> spec_eval(
                        (#[trigger] order_keys@[y]).0,
                        Some(all[i as int].1@),
                    ) is Value,
                forall|y: int|
                    0 <= y < j ==> ((#[trigger] key@[y])@) == spec_projected(
                        all[i as int].1@,
                        order_keys@[y].0,
                    ),
            decreases kn - j,
        {
            let value = match order_keys[j].0.evaluate(Some(&rest[0].1)) {
                Ok(v) => v,
                Err(e) => {
                    proof {
                        assert(!spec_order_ok(all, order_keys@)) by {
                            assert(spec_eval(order_keys@[j as int].0, Some(all[i as int].1@))
                                is Failure);
                        }
                    }
                    return Err(e);
                },
            };
            key.push(value);
            j = j + 1;
        }
        let item = rest.remove(0);
        proof {
            assert(rest@ =~= all.skip(i as int + 1));
            assert(spec_keyed_ok((key, item), order_keys@)) by {
                assert(spec_key_view((key, item)) =~= spec_sort_key(item.1@, order_keys@));
            }
        }
        keyed.push((key, item));
        i = i + 1;
    }
    // insertion sort on the cached keys: each row goes right after the last
    // row already at or before it, so equal keys keep their input order
    let dirs = key_dirs_of(&order_keys);
    let mut sorted: Vec<(Vec<Field>, (RecordId, Row))> = Vec::new();
    let ghost items0 = keyed@;
    proof {
        assert(spec_pairs(items0) =~= all);
        assert(spec_pairs(sorted@).to_multiset().add(spec_pairs(keyed@).to_multiset())
            =~= all.to_multiset()) by {
            assert(spec_pairs(sorted@) =~= Seq::<(RecordId, Row)>::empty());
            assert(spec_pairs(keyed@) =~= all);
        }
        assert(spec_pairs(keyed@) =~= all.skip(0));
        assert(spec_pairs(sorted@) =~= Seq::<(RecordId, Row)>::empty());
        assert(all.take(0) =~= Seq::<(RecordId, Row)>::empty());
    }
    while keyed.len() > 0
        invariant
            kn == order_keys@.len(),
            dirs@ == spec_dirs(order_keys@),
            dirs@.len() == kn,
            spec_pairs(sorted@).to_multiset().add(spec_pairs(keyed@).to_multiset())
                =~= all.to_multiset(),
            sorted@.len() + keyed@.len() == all.len(),
            spec_pairs(keyed@) =~= all.skip(sorted@.len() as int),
            spec_pairs(sorted@) == spec_stable_sort(
                all.take(sorted@.len() as int),
                order_keys@,
                spec_dirs(order_keys@),
            ),
            forall|x: int| 0 <= x < keyed@.len() ==> (#[trigger] keyed@[x]).0@.len() == kn,
            forall|x: int| 0 <= x < keyed@.len() ==> spec_keyed_ok(#[trigger] keyed@[x], order_keys@),
            forall|x: int| 0 <= x < sorted@.len() ==> (#[trigger] sorted@[x]).0@.len() == kn,
            forall|x: int| 0 <= x < sorted@.len() ==> spec_keyed_ok(#[trigger] sorted@[x], order_keys@),
            forall|x: int|
                0 <= x && x + 1 < sorted@.len() ==> spec_keys_le(
                    spec_key_view(#[trigger] sorted@[x]),
                    spec_key_view(sorted@[x + 1]),
                    spec_dirs(order_keys@),
                ),
        decreases keyed@.len(),
    {
        let ghost keyed_prev = keyed@;
        let item = keyed.remove(0);
        proof {
            broadcast use vstd::seq_lib::group_to_multiset_ensures;
            broadcast use vstd::seq_lib::lemma_multiset_commutative;
            broadcast use vstd::multiset::group_multiset_axioms;

            assert(keyed@ =~= keyed_prev.drop_first());
            assert(spec_pairs(keyed_prev) =~= seq![item.1] + spec_pairs(keyed@));
            assert(seq![item.1] =~= Seq::<(RecordId, Row)>::empty().push(item.1));
            vstd::seq_lib::to_multiset_build::<(RecordId, Row)>(
                Seq::<(RecordId, Row)>::empty(),
                item.1,
            );
            Seq::<(RecordId, Row)>::empty().to_multiset_ensures();
            assert(Seq::<(RecordId, Row)>::empty().to_multiset()
                =~= vstd::multiset::Multiset::<(RecordId, Row)>::empty());
            assert(seq![item.1].to_multiset() =~= vstd::multiset::Multiset::<(RecordId, Row)>::empty().insert(
                item.1,
            ));
            assert(spec_pairs(keyed_prev).to_multiset() =~= spec_pairs(
                keyed@,
            ).to_multiset().insert(item.1));
        }
        // walk back from the end to the last row at or before this one
        let mut p: usize = sorted.len();
        while p > 0 && !keys_le(&sorted[p - 1].0, &item.0, &dirs)
            invariant
                kn == order_keys@.len(),
                dirs@ == spec_dirs(order_keys@),
                dirs@.len() == kn,
                item.0@.len() == kn,
                forall|x: int| 0 <= x < sorted@.len() ==> (#[trigger] sorted@[x]).0@.len() == kn,
                p <= sorted@.len(),
                forall|q: int|
                    p <= q < sorted@.len() ==> !spec_keys_le(
                        spec_key_view(#[trigger] sorted@[q]),
                        spec_key_view(item),
                        spec_dirs(order_keys@),
                    ),
            decreases p,
        {
            p = p - 1;
        }
        let ghost sorted_prev = sorted@;
        sorted.insert(p, item);
        proof {
            broadcast use vstd::seq_lib::group_to_multiset_ensures;
            broadcast use vstd::seq_lib::lemma_multiset_commutative;
            broadcast use vstd::multiset::group_multiset_axioms;

            assert(sorted@ =~= sorted_prev.take(p as int).push(item) + sorted_prev.skip(p as int));
            assert(spec_pairs(sorted@) =~= spec_pairs(sorted_prev).take(p as int) + seq![item.1]
                + spec_pairs(sorted_prev).skip(p as int));
            assert(spec_pairs(sorted_prev) =~= spec_pairs(sorted_prev).take(p as int)
                + spec_pairs(sorted_prev).skip(p as int));
            assert(seq![item.1] =~= Seq::<(RecordId, Row)>::empty().push(item.1));
            vstd::seq_lib::to_multiset_build::<(RecordId, Row)>(
                Seq::<(RecordId, Row)>::empty(),
                item.1,
            );
            Seq::<(RecordId, Row)>::empty().to_multiset_ensures();
            assert(Seq::<(RecordId, Row)>::empty().to_multiset()
                =~= vstd::multiset::Multiset::<(RecordId, Row)>::empty());
            assert(seq![item.1].to_multiset() =~= vstd::multiset::Multiset::<(RecordId, Row)>::empty().insert(
                item.1,
            ));
            assert((spec_pairs(sorted_prev).take(p as int) + seq![item.1] + spec_pairs(
                sorted_prev,
            ).skip(p as int)).to_multiset() =~= (spec_pairs(sorted_prev).take(p as int)
                + seq![item.1]).to_multiset().add(
                spec_pairs(sorted_prev).skip(p as int).to_multiset(),
            )) by {
                vstd::seq_lib::lemma_multiset_commutative(
                    spec_pairs(sorted_prev).take(p as int) + seq![item.1],
                    spec_pairs(sorted_prev).skip(p as int),
                );
            }
            assert(spec_pairs(sorted@).to_multiset() =~= spec_pairs(
                sorted_prev,
            ).to_multiset().insert(item.1));
            assert(spec_pairs(sorted@).to_multiset().add(spec_pairs(keyed@).to_multiset())
                =~= all.to_multiset());
            // the walked-to position matches the stable-insert spec
            let k = sorted_prev.len() as int;
            assert(item.1 == all[k]) by {
                assert(spec_pairs(keyed_prev)[0] == all.skip(k)[0]);
            }
            assert(spec_pairs(keyed@) =~= all.skip(k + 1)) by {
                assert(spec_pairs(keyed@) =~= spec_pairs(keyed_prev).drop_first());
            }
            assert forall|q: int|
                p as int <= q < spec_pairs(sorted_prev).len() implies !spec_keys_le(
                spec_sort_key((#[trigger] spec_pairs(sorted_prev)[q]).1@, order_keys@),
                spec_sort_key(item.1.1@, order_keys@),
                spec_dirs(order_keys@),
            ) by {
                assert(spec_key_view(sorted_prev[q]) =~= spec_sort_key(
                    sorted_prev[q].1.1@,
                    order_keys@,
                ));
                assert(spec_key_view((item.0, item.1)) =~= spec_sort_key(item.1.1@, order_keys@))
                    by {
                    assert(spec_keyed_ok(item, order_keys@));
                    assert((item.0, item.1) == item);
                }
                assert(!spec_keys_le(
                    spec_key_view(sorted_prev[q]),
                    spec_key_view(item),
                    spec_dirs(order_keys@),
                ));
            }
            if p > 0 {
                assert(spec_keys_le(
                    spec_sort_key(spec_pairs(sorted_prev)[p - 1].1@, order_keys@),
                    spec_sort_key(item.1.1@, order_keys@),
                    spec_dirs(order_keys@),
                )) by {
                    assert(spec_key_view(sorted_prev[p - 1]) =~= spec_sort_key(
                        sorted_prev[p - 1].1.1@,
                        order_keys@,
                    ));
                    assert(spec_keyed_ok(item, order_keys@));
                    assert(spec_key_view(item) =~= spec_sort_key(item.1.1@, order_keys@));
                }
            }
            lemma_insert_at(
                spec_pairs(sorted_prev),
                item.1,
                order_keys@,
                spec_dirs(order_keys@),
                p as int,
            );
            assert(spec_pairs(sorted@) =~= spec_pairs(sorted_prev).take(p as int).push(item.1)
                + spec_pairs(sorted_prev).skip(p as int));
            assert(spec_pairs(sorted@) == spec_stable_sort(
                all.take(k + 1),
                order_keys@,
                spec_dirs(order_keys@),
            )) by {
                assert(all.take(k + 1).drop_last() =~= all.take(k));
                assert(all.take(k + 1).last() == all[k]);
            }
            // the inserted row sits at or after its left neighbour and at or
            // before its right neighbour
            assert forall|x: int| 0 <= x && x + 1 < sorted@.len() implies spec_keys_le(
                spec_key_view(#[trigger] sorted@[x]),
                spec_key_view(sorted@[x + 1]),
                spec_dirs(order_keys@),
            ) by {
                if x + 1 < p as int {
                    assert(sorted@[x] == sorted_prev[x]);
                    assert(sorted@[x + 1] == sorted_prev[x + 1]);
                } else if x + 1 == p as int {
                    assert(sorted@[x] == sorted_prev[x]);
                    assert(sorted@[x + 1] == item);
                } else if x == p as int {
                    assert(sorted@[x] == item);
                    assert(sorted@[x + 1] == sorted_prev[x]);
                    assert(!spec_keys_le(
                        spec_key_view(sorted_prev[x]),
                        spec_key_view(item),
                        spec_dirs(order_keys@),
                    ));
                    lemma_keys_le_total(
                        spec_key_view(item),
                        spec_key_view(sorted_prev[x]),
                        spec_dirs(order_keys@),
                    );
                } else {
                    assert(sorted@[x] == sorted_prev[x - 1]);
                    assert(sorted@[x + 1] == sorted_prev[x]);
                }
            }
        }
    }
    // strip the keys, handing the rows back in their new order
    let mut out: Rows = Vec::new();
    let ghost sorted_all = sorted@;
    let mut rest2 = sorted;
    let mut k: usize = 0;
    let n2 = rest2.len();
    proof {
        assert(rest2@ =~= sorted_all.skip(0));
    }
    while k < n2
        invariant
            k <= n2,
            n2 == sorted_all.len(),
            rest2@ == sorted_all.skip(k as int),
            out@.len() == k,
            forall|x: int| 0 <= x < k ==> (#[trigger] out@[x]) == sorted_all[x].1,
        decreases n2 - k,
    {
        proof {
            assert(rest2@[0] == sorted_all[k as int]);
        }
        let item = rest2.remove(0);
        proof {
            assert(rest2@ =~= sorted_all.skip(k as int + 1));
        }
        out.push(item.1);
        k = k + 1;
    }
    proof {
        broadcast use vstd::seq_lib::group_to_multiset_ensures;
        broadcast use vstd::multiset::group_multiset_axioms;

        assert(out@ =~= spec_pairs(sorted_all));
        assert(spec_pairs(keyed@) =~= Seq::<(RecordId, Row)>::empty());
        assert(spec_pairs(keyed@).to_multiset()
            =~= vstd::multiset::Multiset::<(RecordId, Row)>::empty());
        assert(out@.to_multiset() =~= all.to_multiset());
        assert forall|x: int| 0 <= x && x + 1 < out@.len() implies spec_keys_le(
            spec_sort_key((#[trigger] out@[x]).1@, order_keys@),
            spec_sort_key(out@[x + 1].1@, order_keys@),
            spec_dirs(order_keys@),
        ) by {
            assert(spec_key_view(sorted_all[x]) =~= spec_sort_key(
                sorted_all[x].1.1@,
                order_keys@,
            ));
            assert(spec_key_view(sorted_all[x + 1]) =~= spec_sort_key(
                sorted_all[x + 1].1.1@,
                order_keys@,
            ));
            assert(out@[x].1@ == sorted_all[x].1.1@);
        }
    }
    Ok(out)
}

} // verus!
