use vstd::prelude::*;

use crate::expression::Expression;
use crate::field::Label;
use crate::schema::Table;

verus! {

/// A boxed plan node, so that nodes can nest.
#[derive(Debug)]
pub struct BoxedNode {
    pub inner: Box<Node>,
}

impl From<Node> for BoxedNode {
    fn from(node: Node) -> (r: BoxedNode) {
        BoxedNode { inner: Box::new(node) }
    }
}

impl vstd::std_specs::convert::FromSpecImpl<Node> for BoxedNode {
    open spec fn obeys_from_spec() -> bool {
        true
    }

    open spec fn from_spec(node: Node) -> BoxedNode {
        BoxedNode { inner: Box::new(node) }
    }
}

/// A query plan node. Executing a node yields a row iterator; nodes nest
/// to form the plan tree.
#[derive(Debug)]
pub enum Node {
    /// Bucketed aggregates over the source, grouped by the given
    /// expressions; group values come first in each output row.
    Aggregate { source: BoxedNode, group_by: Vec<Expression>, aggregates: Vec<Aggregate> },
    /// Keeps the source rows whose predicate holds.
    Filter { source: BoxedNode, predicate: Expression },
    /// Joins by probing a table built from the right source on one column
    /// of each side; an outer join pads unmatched left rows with nulls.
    HashJoin {
        left: BoxedNode,
        left_column: usize,
        right: BoxedNode,
        right_column: usize,
        outer: bool,
    },
    /// Emits only the first rows of the source.
    Limit { source: BoxedNode, limit: usize },
    /// Joins by scanning the right source for every left row; an outer
    /// join pads unmatched left rows with nulls.
    NestedLoopJoin {
        left: BoxedNode,
        right: BoxedNode,
        predicate: Option<Expression>,
        outer: bool,
    },
    /// Emits nothing; keeps the labels of a replaced node.
    Nothing { columns: Vec<Label> },
    /// Skips the first rows of the source.
    Offset { source: BoxedNode, offset: usize },
    /// Sorts the source rows by the given keys.
    Order { source: BoxedNode, key: Vec<(Expression, Direction)> },
    /// Emits one evaluated expression per output column.
    Projection { source: BoxedNode, expressions: Vec<Expression>, aliases: Vec<Label> },
    /// Moves source columns to the given target positions, dropping the
    /// unmapped ones; unfilled targets hold null.
    Remap { source: BoxedNode, targets: Vec<Option<usize>> },
    /// A full table scan with an optional pushed-down predicate.
    Scan { table: Table, filter: Option<Expression>, alias: Option<String> },
    /// A constant set of rows of expressions.
    Values { rows: Vec<Vec<Expression>> },
}

/// An aggregate function over one expression.
#[derive(Debug)]
pub enum Aggregate {
    Average(Expression),
    Count(Expression),
    Max(Expression),
    Min(Expression),
    Sum(Expression),
}

/// A sort order direction.
#[derive(Clone, Copy, Debug, PartialEq, Eq, Structural)]
pub enum Direction {
    Ascending,
    Descending,
}

/// The largest target position used by a remap, plus one: the width of the
/// remapped rows.
pub open spec fn spec_remap_size(targets: Seq<Option<usize>>) -> int
    decreases targets.len(),
{
    if targets.len() == 0 {
        0
    } else {
        let rest = spec_remap_size(targets.drop_last());
        match targets.last() {
            Some(i) => if i + 1 > rest {
                i + 1
            } else {
                rest
            },
            Option::None => rest,
        }
    }
}

/// The number of columns a node emits.
pub open spec fn spec_node_columns(node: Node) -> int
    decreases node,
{
    match node {
        Node::Scan { table, .. } => table.columns@.len() as int,
        Node::Aggregate { aggregates, group_by, .. } => aggregates@.len() + group_by@.len() as int,
        Node::Projection { expressions, .. } => expressions@.len() as int,
        Node::Remap { targets, .. } => spec_remap_size(targets@),
        Node::HashJoin { left, right, .. } => spec_node_columns(*left.inner) + spec_node_columns(
            *right.inner,
        ),
        Node::NestedLoopJoin { left, right, .. } => spec_node_columns(*left.inner)
            + spec_node_columns(*right.inner),
        Node::Filter { source, .. } => spec_node_columns(*source.inner),
        Node::Limit { source, .. } => spec_node_columns(*source.inner),
        Node::Offset { source, .. } => spec_node_columns(*source.inner),
        Node::Order { source, .. } => spec_node_columns(*source.inner),
        Node::Nothing { columns } => columns@.len() as int,
        Node::Values { rows } => if rows@.len() == 0 {
            0
        } else {
            rows@[0].len() as int
        },
    }
}

/// Every node of a plan tree emits a machine-representable number of
/// columns.
pub open spec fn spec_node_columns_ok(node: Node) -> bool
    decreases node,
{
    &&& spec_node_columns(node) <= usize::MAX
    &&& match node {
        Node::HashJoin { left, right, .. } => spec_node_columns_ok(*left.inner)
            && spec_node_columns_ok(*right.inner),
        Node::NestedLoopJoin { left, right, .. } => spec_node_columns_ok(*left.inner)
            && spec_node_columns_ok(*right.inner),
        Node::Filter { source, .. } => spec_node_columns_ok(*source.inner),
        Node::Limit { source, .. } => spec_node_columns_ok(*source.inner),
        Node::Offset { source, .. } => spec_node_columns_ok(*source.inner),
        Node::Order { source, .. } => spec_node_columns_ok(*source.inner),
        Node::Aggregate { source, .. } => spec_node_columns_ok(*source.inner),
        Node::Projection { source, .. } => spec_node_columns_ok(*source.inner),
        Node::Remap { source, .. } => spec_node_columns_ok(*source.inner),
        _ => true,
    }
}

/// A node emits a non-negative number of columns.
pub proof fn lemma_node_columns_nonneg(node: Node)
    ensures
        spec_node_columns(node) >= 0,
    decreases node,
{
    match node {
        Node::HashJoin { left, right, .. } => {
            lemma_node_columns_nonneg(*left.inner);
            lemma_node_columns_nonneg(*right.inner);
        },
        Node::NestedLoopJoin { left, right, .. } => {
            lemma_node_columns_nonneg(*left.inner);
            lemma_node_columns_nonneg(*right.inner);
        },
        Node::Filter { source, .. } => {
            lemma_node_columns_nonneg(*source.inner);
        },
        Node::Limit { source, .. } => {
            lemma_node_columns_nonneg(*source.inner);
        },
        Node::Offset { source, .. } => {
            lemma_node_columns_nonneg(*source.inner);
        },
        Node::Order { source, .. } => {
            lemma_node_columns_nonneg(*source.inner);
        },
        Node::Remap { targets, .. } => {
            lemma_remap_size_nonneg(targets@, targets@.len() as int);
        },
        _ => {},
    }
}

/// A remap width is never negative.
proof fn lemma_remap_size_nonneg(targets: Seq<Option<usize>>, n: int)
    requires
        n == targets.len(),
    ensures
        spec_remap_size(targets) >= 0,
    decreases n,
{
    if targets.len() > 0 {
        lemma_remap_size_nonneg(targets.drop_last(), n - 1);
    }
}

/// A label reduced to the character sequences it holds.
pub enum LabelView {
    /// No label.
    Unlabeled,
    /// An unqualified column name.
    Unqualified(Seq<char>),
    /// A fully qualified table/column name.
    Qualified(Seq<char>, Seq<char>),
}

/// The view of a label.
pub open spec fn spec_label_view(l: Label) -> LabelView {
    match l {
        Label::Unlabeled => LabelView::Unlabeled,
        Label::Unqualified(n) => LabelView::Unqualified(n@),
        Label::Qualified(t, n) => LabelView::Qualified(t@, n@),
    }
}

/// The first remap target that emits the given output column, if any.
pub open spec fn spec_remap_source(targets: Seq<Option<usize>>, index: usize) -> Option<int>
    decreases targets.len(),
{
    if targets.len() == 0 {
        Option::<int>::None
    } else if targets[0] == Some(index) {
        Some(0int)
    } else {
        match spec_remap_source(targets.drop_first(), index) {
            Some(j) => Some(j + 1),
            Option::None => Option::<int>::None,
        }
    }
}

/// A scan of the targets that stops at the first match finds the column
/// `spec_remap_source` names.
proof fn lemma_remap_source_found(targets: Seq<Option<usize>>, index: usize, j: int)
    requires
        0 <= j < targets.len(),
        targets[j] == Some(index),
        forall|k: int| 0 <= k < j ==> (#[trigger] targets[k]) != Some(index),
    ensures
        spec_remap_source(targets, index) == Some(j),
    decreases j,
{
    if j > 0 {
        assert(targets[0] != Some(index));
        let rest = targets.drop_first();
        assert(rest[j - 1] == targets[j]);
        assert forall|k: int| 0 <= k < j - 1 implies (#[trigger] rest[k]) != Some(index) by {
            assert(rest[k] == targets[k + 1]);
        }
        lemma_remap_source_found(rest, index, j - 1);
    }
}

/// When no target names the column, `spec_remap_source` finds nothing.
proof fn lemma_remap_source_none(targets: Seq<Option<usize>>, index: usize)
    requires
        forall|k: int| 0 <= k < targets.len() ==> (#[trigger] targets[k]) != Some(index),
    ensures
        spec_remap_source(targets, index) is None,
    decreases targets.len(),
{
    if targets.len() > 0 {
        let rest = targets.drop_first();
        assert forall|k: int| 0 <= k < rest.len() implies (#[trigger] rest[k]) != Some(index) by {
            assert(rest[k] == targets[k + 1]);
        }
        lemma_remap_source_none(rest, index);
    }
}

/// The label of a node's output column at the given position: a scan
/// qualifies the column with its table, pass-through nodes defer to their
/// source, a join splits at the left width, and anything computed is
/// unlabeled.
pub open spec fn spec_column_label(node: Node, index: usize) -> LabelView
    decreases node,
{
    match node {
        Node::Scan { table, .. } => if (index as int) < table.columns@.len() {
            LabelView::Qualified(table.name@, table.columns@[index as int].name@)
        } else {
            LabelView::Unlabeled
        },
        Node::Aggregate { source, group_by, .. } => if (index as int) < group_by@.len() {
            match group_by@[index as int] {
                Expression::Column(i) => spec_column_label(*source.inner, i),
                _ => LabelView::Unlabeled,
            }
        } else {
            LabelView::Unlabeled
        },
        Node::Projection { source, expressions, aliases } => if (index as int) < aliases@.len() {
            match aliases@[index as int] {
                Label::Unlabeled => if (index as int) < expressions@.len() {
                    match expressions@[index as int] {
                        Expression::Column(i) => spec_column_label(*source.inner, i),
                        _ => LabelView::Unlabeled,
                    }
                } else {
                    LabelView::Unlabeled
                },
                other => spec_label_view(other),
            }
        } else if (index as int) < expressions@.len() {
            match expressions@[index as int] {
                Expression::Column(i) => spec_column_label(*source.inner, i),
                _ => LabelView::Unlabeled,
            }
        } else {
            LabelView::Unlabeled
        },
        Node::Remap { source, targets } => match spec_remap_source(targets@, index) {
            Some(j) => spec_column_label(*source.inner, j as usize),
            Option::None => LabelView::Unlabeled,
        },
        Node::HashJoin { left, right, .. } => if (index as int) < spec_node_columns(*left.inner) {
            spec_column_label(*left.inner, index)
        } else {
            spec_column_label(
                *right.inner,
                (index - spec_node_columns(*left.inner)) as usize,
            )
        },
        Node::NestedLoopJoin { left, right, .. } => if (index as int) < spec_node_columns(
            *left.inner,
        ) {
            spec_column_label(*left.inner, index)
        } else {
            spec_column_label(
                *right.inner,
                (index - spec_node_columns(*left.inner)) as usize,
            )
        },
        Node::Filter { source, .. } => spec_column_label(*source.inner, index),
        Node::Limit { source, .. } => spec_column_label(*source.inner, index),
        Node::Offset { source, .. } => spec_column_label(*source.inner, index),
        Node::Order { source, .. } => spec_column_label(*source.inner, index),
        Node::Nothing { columns } => if (index as int) < columns@.len() {
            spec_label_view(columns@[index as int])
        } else {
            LabelView::Unlabeled
        },
        Node::Values { .. } => LabelView::Unlabeled,
    }
}

impl Node {
    /// The number of columns this node emits.
    pub fn columns(&self) -> (r: usize)
        requires
            spec_node_columns_ok(*self),
        ensures
            r == spec_node_columns(*self),
        decreases *self,
    {
        proof {
            lemma_node_columns_nonneg(*self);
        }
        match self {
            Node::Scan { table, .. } => table.col_count(),
            Node::Aggregate { aggregates, group_by, .. } => aggregates.len() + group_by.len(),
            Node::Projection { expressions, .. } => expressions.len(),
            Node::Remap { targets, .. } => remap_width(targets),
            Node::HashJoin { left, right, .. } => {
                proof {
                    lemma_node_columns_nonneg(*left.inner);
                    lemma_node_columns_nonneg(*right.inner);
                }
                let a = left.inner.columns();
                let b = right.inner.columns();
                a + b
            },
            Node::NestedLoopJoin { left, right, .. } => {
                proof {
                    lemma_node_columns_nonneg(*left.inner);
                    lemma_node_columns_nonneg(*right.inner);
                }
                let a = left.inner.columns();
                let b = right.inner.columns();
                a + b
            },
            Node::Filter { source, .. } => source.inner.columns(),
            Node::Limit { source, .. } => source.inner.columns(),
            Node::Offset { source, .. } => source.inner.columns(),
            Node::Order { source, .. } => source.inner.columns(),
            Node::Nothing { columns } => columns.len(),
            Node::Values { rows } => {
                if rows.len() == 0 {
                    0
                } else {
                    rows[0].len()
                }
            },
        }
    }


    /// The label of the node's output column at the given position, traced
    /// through the tree to a source column where one exists.
    pub fn column_label(&self, index: usize) -> (r: Label)
        requires
            spec_node_columns_ok(*self),
        ensures
            spec_label_view(r) == spec_column_label(*self, index),
        decreases *self,
    {
        proof {
            lemma_node_columns_nonneg(*self);
        }
        match self {
            Node::Scan { table, .. } => {
                if index < table.col_count() {
                    Label::Qualified(table.name().to_string(), table.get_column_name(index))
                } else {
                    Label::Unlabeled
                }
            },
            Node::Aggregate { source, group_by, .. } => {
                if index < group_by.len() {
                    match &group_by[index] {
                        Expression::Column(i) => source.inner.column_label(*i),
                        _ => Label::Unlabeled,
                    }
                } else {
                    Label::Unlabeled
                }
            },
            Node::Projection { source, expressions, aliases } => {
                if index < aliases.len() {
                    match &aliases[index] {
                        Label::Unlabeled => {
                            if index < expressions.len() {
                                match &expressions[index] {
                                    Expression::Column(i) => source.inner.column_label(*i),
                                    _ => Label::Unlabeled,
                                }
                            } else {
                                Label::Unlabeled
                            }
                        },
                        other => other.clone(),
                    }
                } else if index < expressions.len() {
                    match &expressions[index] {
                        Expression::Column(i) => source.inner.column_label(*i),
                        _ => Label::Unlabeled,
                    }
                } else {
                    Label::Unlabeled
                }
            },
            Node::Remap { source, targets } => {
                let n = targets.len();
                let mut j: usize = 0;
                let mut found: Option<usize> = Option::None;
                while j < n && found.is_none()
                    invariant
                        n == targets@.len(),
                        j <= n,
                        found is None ==> (forall|k: int|
                            0 <= k < j ==> (#[trigger] targets@[k]) != Some(index)),
                        found matches Some(fj) ==> j < n && fj == j && targets@[j as int]
                            == Some(index) && (forall|k: int|
                            0 <= k < j ==> (#[trigger] targets@[k]) != Some(index)),
                    decreases n - j + (if found is None {
                        1int
                    } else {
                        0int
                    }),
                {
                    let mut hit = false;
                    match targets[j] {
                        Some(t) => {
                            if t == index {
                                found = Some(j);
                                hit = true;
                            }
                        },
                        Option::None => {},
                    }
                    if !hit {
                        j = j + 1;
                    }
                }
                match found {
                    Some(fj) => {
                        proof {
                            lemma_remap_source_found(targets@, index, fj as int);
                        }
                        source.inner.column_label(fj)
                    },
                    Option::None => {
                        proof {
                            lemma_remap_source_none(targets@, index);
                        }
                        Label::Unlabeled
                    },
                }
            },
            Node::HashJoin { left, right, .. } => {
                proof {
                    lemma_node_columns_nonneg(*left.inner);
                    lemma_node_columns_nonneg(*right.inner);
                }
                let lw = left.inner.columns();
                if index < lw {
                    left.inner.column_label(index)
                } else {
                    right.inner.column_label(index - lw)
                }
            },
            Node::NestedLoopJoin { left, right, .. } => {
                proof {
                    lemma_node_columns_nonneg(*left.inner);
                    lemma_node_columns_nonneg(*right.inner);
                }
                let lw = left.inner.columns();
                if index < lw {
                    left.inner.column_label(index)
                } else {
                    right.inner.column_label(index - lw)
                }
            },
            Node::Filter { source, .. } => source.inner.column_label(index),
            Node::Limit { source, .. } => source.inner.column_label(index),
            Node::Offset { source, .. } => source.inner.column_label(index),
            Node::Order { source, .. } => source.inner.column_label(index),
            Node::Nothing { columns } => {
                if index < columns.len() {
                    columns[index].clone()
                } else {
                    Label::Unlabeled
                }
            },
            Node::Values { .. } => Label::Unlabeled,
        }
    }
}

/// The width of the rows a remap emits.
pub fn remap_width(targets: &Vec<Option<usize>>) -> (r: usize)
    requires
        spec_remap_size(targets@) <= usize::MAX,
    ensures
        r == spec_remap_size(targets@),
{
    let n = targets.len();
    let mut size: usize = 0;
    let mut j: usize = 0;
    proof {
        assert(targets@.take(0) =~= Seq::<Option<usize>>::empty());
    }
    while j < n
        invariant
            n == targets@.len(),
            j <= n,
            size == spec_remap_size(targets@.take(j as int)),
            spec_remap_size(targets@) <= usize::MAX,
        decreases n - j,
    {
        proof {
            assert(targets@.take(j as int + 1).drop_last() =~= targets@.take(j as int));
            assert(targets@.take(j as int + 1).last() == targets@[j as int]);
            assert(targets@.take(n as int) =~= targets@);
            lemma_remap_size_prefix(targets@, j as int + 1, n as int);
        }
        match targets[j] {
            Some(t) => {
                proof {
                    assert(spec_remap_size(targets@.take(j as int + 1)) >= t + 1);
                }
                if t >= size {
                    size = t + 1;
                }
            },
            Option::None => {},
        }
        j = j + 1;
    }
    proof {
        assert(targets@.take(n as int) =~= targets@);
    }
    size
}

/// A prefix's remap width never exceeds the whole list's.
pub proof fn lemma_remap_size_prefix(targets: Seq<Option<usize>>, a: int, b: int)
    requires
        0 <= a <= b <= targets.len(),
    ensures
        spec_remap_size(targets.take(a)) <= spec_remap_size(targets.take(b)),
    decreases b - a,
{
    if a < b {
        lemma_remap_size_prefix(targets, a, b - 1);
        assert(targets.take(b).drop_last() =~= targets.take(b - 1));
        lemma_remap_size_nonneg(targets.take(b - 1), b - 1);
    }
    if a == b {
    }
}

/// Whether a remap's width fits the machine range, checked at run time.
pub fn remap_width_checked(targets: &Vec<Option<usize>>) -> (r: bool)
    ensures
        r == (spec_remap_size(targets@) <= usize::MAX),
{
    let n = targets.len();
    let mut size: usize = 0;
    let mut j: usize = 0;
    proof {
        assert(targets@.take(0) =~= Seq::<Option<usize>>::empty());
    }
    while j < n
        invariant
            n == targets@.len(),
            j <= n,
            size == spec_remap_size(targets@.take(j as int)),
        decreases n - j,
    {
        proof {
            assert(targets@.take(j as int + 1).drop_last() =~= targets@.take(j as int));
            assert(targets@.take(j as int + 1).last() == targets@[j as int]);
        }
        match targets[j] {
            Some(t) => {
                if t >= size {
                    if t == usize::MAX {
                        proof {
                            lemma_remap_size_prefix(targets@, j as int + 1, n as int);
                            assert(targets@.take(n as int) =~= targets@);
                        }
                        return false;
                    }
                    size = t + 1;
                }
            },
            Option::None => {},
        }
        j = j + 1;
    }
    proof {
        assert(targets@.take(n as int) =~= targets@);
    }
    true
}

/// Inverts a remap target list: for each output position, the source
/// position mapped there, if any.
pub fn remap_sources(targets: &Vec<Option<usize>>) -> (r: Vec<Option<usize>>)
    requires
        spec_remap_size(targets@) <= usize::MAX,
    ensures
        r@.len() == spec_remap_size(targets@),
        forall|t: int|
            0 <= t < r@.len() ==> ((#[trigger] r@[t]) matches Some(s) ==> 0 <= s
                < targets@.len() && targets@[s as int] == Some(t as usize)),
{
    let size = remap_width(targets);
    let mut sources: Vec<Option<usize>> = Vec::new();
    let mut t: usize = 0;
    while t < size
        invariant
            t <= size,
            sources@.len() == t,
            forall|x: int| 0 <= x < t ==> (#[trigger] sources@[x]) is None,
        decreases size - t,
    {
        sources.push(Option::None);
        t = t + 1;
    }
    let n = targets.len();
    let mut from: usize = 0;
    while from < n
        invariant
            n == targets@.len(),
            from <= n,
            sources@.len() == spec_remap_size(targets@),
            forall|x: int|
                0 <= x < sources@.len() ==> ((#[trigger] sources@[x]) matches Some(s) ==> 0 <= s
                    < targets@.len() && targets@[s as int] == Some(x as usize)),
        decreases n - from,
    {
        match targets[from] {
            Some(to) => {
                if to < sources.len() {
                    sources.set(to, Some(from));
                }
            },
            Option::None => {},
        }
        from = from + 1;
    }
    sources
}

/// What a plan execution reports back to the session.
#[derive(Debug)]
pub enum ExecutionResult {
    CreateTable { name: String },
    DropTable { name: String, existed: bool },
    Delete { count: u64 },
    Insert { count: u64, record_ids: Vec<crate::record_id::RecordId> },
    Update { count: u64 },
    Select { rows: Vec<(crate::record_id::RecordId, crate::row::Row)>, columns: Vec<Label> },
}

/// A query plan: one statement ready to run.
#[derive(Debug)]
pub enum Plan {
    /// Creates a table with the given schema.
    CreateTable { schema: Table },
    /// Drops the given table; missing tables err unless tolerated.
    DropTable { table: String, if_exists: bool },
    /// Deletes the rows the source emits from the table.
    Delete { table: String, source: BoxedNode },
    /// Inserts the rows the source emits into the table.
    Insert { table: Table, source: BoxedNode },
    /// Updates the rows the source emits, applying each expression to its
    /// column, evaluated against the row before the update.
    Update { table: Table, source: BoxedNode, expressions: Vec<(usize, Expression)> },
    /// Runs the plan tree and returns the resulting rows.
    Select(BoxedNode),
}

} // verus!
