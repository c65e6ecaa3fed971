use vstd::prelude::*;

use crate::errors::Error;
use crate::field::{
    spec_checked_add, spec_checked_div, spec_checked_mod, spec_checked_mul, spec_checked_sub,
    spec_field_cmp, spec_field_eq, Field, FieldArith, FieldView,
};
use crate::row::Row;

verus! {

/// An expression over an optional current row: constants, column
/// references, logic, comparisons, and checked arithmetic.
#[derive(Debug)]
pub enum Expression {
    /// A constant value.
    Constant(Field),
    /// The value of the row's column at the given position.
    Column(usize),
    /// Three-valued logical conjunction.
    And(Box<Expression>, Box<Expression>),
    /// Three-valued logical disjunction.
    Or(Box<Expression>, Box<Expression>),
    /// Three-valued logical negation.
    Not(Box<Expression>),
    /// Equality; null operands yield null.
    Equal(Box<Expression>, Box<Expression>),
    /// Inequality; null operands yield null.
    NotEqual(Box<Expression>, Box<Expression>),
    /// Strict order; null operands yield null.
    LessThan(Box<Expression>, Box<Expression>),
    /// Strict order; null operands yield null.
    GreaterThan(Box<Expression>, Box<Expression>),
    /// Checked addition.
    Add(Box<Expression>, Box<Expression>),
    /// Checked subtraction.
    Subtract(Box<Expression>, Box<Expression>),
    /// Checked multiplication.
    Multiply(Box<Expression>, Box<Expression>),
    /// Checked division.
    Divide(Box<Expression>, Box<Expression>),
    /// Checked remainder.
    Remainder(Box<Expression>, Box<Expression>),
}

/// What evaluating an expression yields: a value, or a failure surfaced to
/// the caller as an error.
pub enum EvalOutcome {
    Value(FieldView),
    Failure,
}

/// Three-valued conjunction over field values; a non-boolean non-null
/// operand fails.
pub open spec fn spec_and(a: FieldView, b: FieldView) -> EvalOutcome {
    match (a, b) {
        (FieldView::Boolean(false), _) => EvalOutcome::Value(FieldView::Boolean(false)),
        (_, FieldView::Boolean(false)) => EvalOutcome::Value(FieldView::Boolean(false)),
        (FieldView::Boolean(true), FieldView::Boolean(true)) => EvalOutcome::Value(
            FieldView::Boolean(true),
        ),
        (FieldView::Null, FieldView::Boolean(_)) => EvalOutcome::Value(FieldView::Null),
        (FieldView::Boolean(_), FieldView::Null) => EvalOutcome::Value(FieldView::Null),
        (FieldView::Null, FieldView::Null) => EvalOutcome::Value(FieldView::Null),
        _ => EvalOutcome::Failure,
    }
}

/// Three-valued disjunction over field values.
pub open spec fn spec_or(a: FieldView, b: FieldView) -> EvalOutcome {
    match (a, b) {
        (FieldView::Boolean(true), _) => EvalOutcome::Value(FieldView::Boolean(true)),
        (_, FieldView::Boolean(true)) => EvalOutcome::Value(FieldView::Boolean(true)),
        (FieldView::Boolean(false), FieldView::Boolean(false)) => EvalOutcome::Value(
            FieldView::Boolean(false),
        ),
        (FieldView::Null, FieldView::Boolean(_)) => EvalOutcome::Value(FieldView::Null),
        (FieldView::Boolean(_), FieldView::Null) => EvalOutcome::Value(FieldView::Null),
        (FieldView::Null, FieldView::Null) => EvalOutcome::Value(FieldView::Null),
        _ => EvalOutcome::Failure,
    }
}

/// Lifts a checked arithmetic outcome into an evaluation outcome.
pub open spec fn spec_arith_outcome(a: FieldArith) -> EvalOutcome {
    match a {
        FieldArith::Value(v) => EvalOutcome::Value(v),
        FieldArith::Overflow => EvalOutcome::Failure,
        FieldArith::Invalid => EvalOutcome::Failure,
    }
}

/// A comparison outcome: null when either side is null, else the boolean.
pub open spec fn spec_compare(a: FieldView, b: FieldView, holds: bool) -> EvalOutcome {
    if a is Null || b is Null {
        EvalOutcome::Value(FieldView::Null)
    } else {
        EvalOutcome::Value(FieldView::Boolean(holds))
    }
}

/// The value of an expression over an optional row.
pub open spec fn spec_eval(e: Expression, row: Option<Seq<FieldView>>) -> EvalOutcome
    decreases e,
{
    match e {
        Expression::Constant(f) => EvalOutcome::Value(f@),
        Expression::Column(i) => match row {
            Some(vals) => if i < vals.len() {
                EvalOutcome::Value(vals[i as int])
            } else {
                EvalOutcome::Failure
            },
            Option::None => EvalOutcome::Failure,
        },
        Expression::And(l, r) => match (spec_eval(*l, row), spec_eval(*r, row)) {
            (EvalOutcome::Value(a), EvalOutcome::Value(b)) => spec_and(a, b),
            _ => EvalOutcome::Failure,
        },
        Expression::Or(l, r) => match (spec_eval(*l, row), spec_eval(*r, row)) {
            (EvalOutcome::Value(a), EvalOutcome::Value(b)) => spec_or(a, b),
            _ => EvalOutcome::Failure,
        },
        Expression::Not(x) => match spec_eval(*x, row) {
            EvalOutcome::Value(FieldView::Boolean(b)) => EvalOutcome::Value(
                FieldView::Boolean(!b),
            ),
            EvalOutcome::Value(FieldView::Null) => EvalOutcome::Value(FieldView::Null),
            _ => EvalOutcome::Failure,
        },
        Expression::Equal(l, r) => match (spec_eval(*l, row), spec_eval(*r, row)) {
            (EvalOutcome::Value(a), EvalOutcome::Value(b)) => spec_compare(
                a,
                b,
                spec_field_eq(a, b),
            ),
            _ => EvalOutcome::Failure,
        },
        Expression::NotEqual(l, r) => match (spec_eval(*l, row), spec_eval(*r, row)) {
            (EvalOutcome::Value(a), EvalOutcome::Value(b)) => spec_compare(
                a,
                b,
                !spec_field_eq(a, b),
            ),
            _ => EvalOutcome::Failure,
        },
        Expression::LessThan(l, r) => match (spec_eval(*l, row), spec_eval(*r, row)) {
            (EvalOutcome::Value(a), EvalOutcome::Value(b)) => spec_compare(
                a,
                b,
                spec_field_cmp(a, b) == core::cmp::Ordering::Less,
            ),
            _ => EvalOutcome::Failure,
        },
        Expression::GreaterThan(l, r) => match (spec_eval(*l, row), spec_eval(*r, row)) {
            (EvalOutcome::Value(a), EvalOutcome::Value(b)) => spec_compare(
                a,
                b,
                spec_field_cmp(a, b) == core::cmp::Ordering::Greater,
            ),
            _ => EvalOutcome::Failure,
        },
        Expression::Add(l, r) => match (spec_eval(*l, row), spec_eval(*r, row)) {
            (EvalOutcome::Value(a), EvalOutcome::Value(b)) => spec_arith_outcome(
                spec_checked_add(a, b),
            ),
            _ => EvalOutcome::Failure,
        },
        Expression::Subtract(l, r) => match (spec_eval(*l, row), spec_eval(*r, row)) {
            (EvalOutcome::Value(a), EvalOutcome::Value(b)) => spec_arith_outcome(
                spec_checked_sub(a, b),
            ),
            _ => EvalOutcome::Failure,
        },
        Expression::Multiply(l, r) => match (spec_eval(*l, row), spec_eval(*r, row)) {
            (EvalOutcome::Value(a), EvalOutcome::Value(b)) => spec_arith_outcome(
                spec_checked_mul(a, b),
            ),
            _ => EvalOutcome::Failure,
        },
        Expression::Divide(l, r) => match (spec_eval(*l, row), spec_eval(*r, row)) {
            (EvalOutcome::Value(a), EvalOutcome::Value(b)) => spec_arith_outcome(
                spec_checked_div(a, b),
            ),
            _ => EvalOutcome::Failure,
        },
        Expression::Remainder(l, r) => match (spec_eval(*l, row), spec_eval(*r, row)) {
            (EvalOutcome::Value(a), EvalOutcome::Value(b)) => spec_arith_outcome(
                spec_checked_mod(a, b),
            ),
            _ => EvalOutcome::Failure,
        },
    }
}

/// The row view an optional row borrows to.
pub open spec fn spec_row_opt(row: Option<&Row>) -> Option<Seq<FieldView>> {
    match row {
        Some(r) => Some(r@),
        Option::None => Option::None,
    }
}

impl Expression {
    /// Evaluates the expression against an optional current row.
    pub fn evaluate(&self, row: Option<&Row>) -> (r: Result<Field, Error>)
        ensures
            r is Ok <==> spec_eval(*self, spec_row_opt(row)) is Value,
            r matches Ok(f) ==> spec_eval(*self, spec_row_opt(row)) == EvalOutcome::Value(f@),
        decreases *self,
    {
        match self {
            Expression::Constant(f) => Ok(f.clone()),
            Expression::Column(i) => match row {
                Some(vals) => {
                    if *i < vals.size() {
                        Ok(vals.field_at(*i).clone())
                    } else {
                        Err(Error::OutOfBounds)
                    }
                },
                Option::None => Err(
                    Error::InvalidInput("a column reference needs a row".to_string()),
                ),
            },
            Expression::And(l, r) => {
                let a = (**l).evaluate(row)?;
                let b = (**r).evaluate(row)?;
                match (&a, &b) {
                    (Field::Boolean(false), _) => Ok(Field::Boolean(false)),
                    (_, Field::Boolean(false)) => Ok(Field::Boolean(false)),
                    (Field::Boolean(true), Field::Boolean(true)) => Ok(Field::Boolean(true)),
                    (Field::Null, Field::Boolean(_)) => Ok(Field::Null),
                    (Field::Boolean(_), Field::Null) => Ok(Field::Null),
                    (Field::Null, Field::Null) => Ok(Field::Null),
                    _ => Err(Error::InvalidInput("logic needs boolean operands".to_string())),
                }
            },
            Expression::Or(l, r) => {
                let a = (**l).evaluate(row)?;
                let b = (**r).evaluate(row)?;
                match (&a, &b) {
                    (Field::Boolean(true), _) => Ok(Field::Boolean(true)),
                    (_, Field::Boolean(true)) => Ok(Field::Boolean(true)),
                    (Field::Boolean(false), Field::Boolean(false)) => Ok(Field::Boolean(false)),
                    (Field::Null, Field::Boolean(_)) => Ok(Field::Null),
                    (Field::Boolean(_), Field::Null) => Ok(Field::Null),
                    (Field::Null, Field::Null) => Ok(Field::Null),
                    _ => Err(Error::InvalidInput("logic needs boolean operands".to_string())),
                }
            },
            Expression::Not(x) => {
                let a = (**x).evaluate(row)?;
                match &a {
                    Field::Boolean(b) => Ok(Field::Boolean(!*b)),
                    Field::Null => Ok(Field::Null),
                    _ => Err(Error::InvalidInput("logic needs a boolean operand".to_string())),
                }
            },
            Expression::Equal(l, r) => {
                let a = (**l).evaluate(row)?;
                let b = (**r).evaluate(row)?;
                if a.is_null() || b.is_null() {
                    Ok(Field::Null)
                } else {
                    Ok(Field::Boolean(a == b))
                }
            },
            Expression::NotEqual(l, r) => {
                let a = (**l).evaluate(row)?;
                let b = (**r).evaluate(row)?;
                if a.is_null() || b.is_null() {
                    Ok(Field::Null)
                } else {
                    Ok(Field::Boolean(!(a == b)))
                }
            },
            Expression::LessThan(l, r) => {
                let a = (**l).evaluate(row)?;
                let b = (**r).evaluate(row)?;
                if a.is_null() || b.is_null() {
                    Ok(Field::Null)
                } else {
                    match a.cmp(&b) {
                        core::cmp::Ordering::Less => Ok(Field::Boolean(true)),
                        _ => Ok(Field::Boolean(false)),
                    }
                }
            },
            Expression::GreaterThan(l, r) => {
                let a = (**l).evaluate(row)?;
                let b = (**r).evaluate(row)?;
                if a.is_null() || b.is_null() {
                    Ok(Field::Null)
                } else {
                    match a.cmp(&b) {
                        core::cmp::Ordering::Greater => Ok(Field::Boolean(true)),
                        _ => Ok(Field::Boolean(false)),
                    }
                }
            },
            Expression::Add(l, r) => {
                let a = (**l).evaluate(row)?;
                let b = (**r).evaluate(row)?;
                a.checked_add(&b)
            },
            Expression::Subtract(l, r) => {
                let a = (**l).evaluate(row)?;
                let b = (**r).evaluate(row)?;
                a.checked_sub(&b)
            },
            Expression::Multiply(l, r) => {
                let a = (**l).evaluate(row)?;
                let b = (**r).evaluate(row)?;
                a.checked_mul(&b)
            },
            Expression::Divide(l, r) => {
                let a = (**l).evaluate(row)?;
                let b = (**r).evaluate(row)?;
                a.checked_div(&b)
            },
            Expression::Remainder(l, r) => {
                let a = (**l).evaluate(row)?;
                let b = (**r).evaluate(row)?;
                a.checked_mod(&b)
            },
        }
    }
}

} // verus!
