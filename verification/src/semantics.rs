//! What predicates mean: the value of a predicate on a row is true, false or null.
use vstd::prelude::*;

use crate::expressions::{
    expression_references, expressions_references, field_patch_references,
    field_patches_references, predicate_references, predicates_references, BinaryExpressionOp,
    BinaryPredicateOp, ExpressionModel, FieldPatchModel, JunctionPredicateOp, Path, PredicateModel,
    ScalarModel, UnaryExpressionOp, UnaryPredicateOp, VariadicExpressionOp,
};
use crate::schema::FieldModel;

verus! {

/// The value of a predicate: true, false, or null (`None`).
pub type Truth = Option<bool>;

/// What makes one value of several.
pub enum Operation {
    Unary(UnaryExpressionOp),
    Binary(BinaryExpressionOp),
    Variadic(VariadicExpressionOp),
    /// A struct of the given fields.
    Struct,
    /// A struct of all given values but the last one, which decides whether it is null.
    NullableStruct,
    Opaque(Seq<char>),
    Unknown(Seq<char>),
    ParseJson(Seq<FieldModel>),
    MapToStruct,
}

/// What is inserted after a field of a struct.
pub struct Insertion<V> {
    pub field_name: Seq<char>,
    pub values: Seq<V>,
}

/// A row, and the meaning of the operations on its values. `V` is the type of values.
#[verifier::reject_recursive_types(V)]
pub struct Row<V> {
    pub column: spec_fn(Path) -> V,
    pub literal: spec_fn(ScalarModel) -> V,
    /// The boolean value of a truth.
    pub of_truth: spec_fn(Truth) -> V,
    pub operation: spec_fn(Operation, Seq<V>) -> V,
    /// A struct with fields before, after each field, and after the last one.
    pub patch: spec_fn(Seq<V>, Seq<Insertion<V>>, Seq<V>) -> V,
    /// The truth of a boolean value.
    pub truth: spec_fn(V) -> Truth,
    pub unary: spec_fn(UnaryPredicateOp, V) -> Truth,
    pub binary: spec_fn(BinaryPredicateOp, V, V) -> Truth,
    /// The truth of a predicate that only the engine knows.
    pub opaque: spec_fn(Seq<char>, Seq<V>) -> Truth,
    pub unknown: spec_fn(Seq<char>) -> Truth,
}

/// The value of an expression on a row.
pub open spec fn value<V>(e: ExpressionModel, row: Row<V>) -> V
    decreases e,
{
    match e {
        ExpressionModel::Literal(v) => (row.literal)(v),
        ExpressionModel::Column(c) => (row.column)(c),
        ExpressionModel::Predicate(p) => (row.of_truth)(holds(*p, row)),
        ExpressionModel::Struct(es, nullability) => match nullability {
            Some(n) => (row.operation)(
                Operation::NullableStruct,
                values(es, row).push(value(*n, row)),
            ),
            None => (row.operation)(Operation::Struct, values(es, row)),
        },
        ExpressionModel::StructPatch { prepended_fields, field_patches, appended_fields } => (
        row.patch)(
            values(prepended_fields, row),
            insertions(field_patches, row),
            values(appended_fields, row),
        ),
        ExpressionModel::Unary(op, x) => (row.operation)(
            Operation::Unary(op),
            seq![value(*x, row)],
        ),
        ExpressionModel::Binary(op, l, r) => (row.operation)(
            Operation::Binary(op),
            seq![value(*l, row), value(*r, row)],
        ),
        ExpressionModel::Variadic(op, es) => (row.operation)(
            Operation::Variadic(op),
            values(es, row),
        ),
        ExpressionModel::Opaque(name, es) => (row.operation)(
            Operation::Opaque(name),
            values(es, row),
        ),
        ExpressionModel::Unknown(name) => (row.operation)(Operation::Unknown(name), seq![]),
        ExpressionModel::ParseJson(x, schema) => (row.operation)(
            Operation::ParseJson(schema),
            seq![value(*x, row)],
        ),
        ExpressionModel::MapToStruct(x) => (row.operation)(
            Operation::MapToStruct,
            seq![value(*x, row)],
        ),
    }
}

/// The values of the expressions of a list on a row.
pub open spec fn values<V>(es: Seq<ExpressionModel>, row: Row<V>) -> Seq<V>
    decreases es,
{
    if es.len() == 0 {
        Seq::empty()
    } else {
        values(es.drop_last(), row).push(value(es.last(), row))
    }
}

/// What a field patch inserts into a struct of a row.
pub open spec fn insertion<V>(p: FieldPatchModel, row: Row<V>) -> Insertion<V>
    decreases p,
{
    Insertion { field_name: p.field_name, values: values(p.insertions, row) }
}

/// What the field patches of a list insert into a struct of a row.
pub open spec fn insertions<V>(ps: Seq<FieldPatchModel>, row: Row<V>) -> Seq<Insertion<V>>
    decreases ps,
{
    if ps.len() == 0 {
        Seq::empty()
    } else {
        insertions(ps.drop_last(), row).push(insertion(ps.last(), row))
    }
}

/// The negation of a truth value.
pub open spec fn negation(t: Truth) -> Truth {
    match t {
        Some(b) => Some(!b),
        None => None,
    }
}

/// The conjunction or disjunction of truth values.
pub open spec fn junction(op: JunctionPredicateOp, ts: Seq<Truth>) -> Truth {
    match op {
        JunctionPredicateOp::And => if ts.contains(Some(false)) {
            Some(false)
        } else if ts.contains(None) {
            None
        } else {
            Some(true)
        },
        JunctionPredicateOp::Or => if ts.contains(Some(true)) {
            Some(true)
        } else if ts.contains(None) {
            None
        } else {
            Some(false)
        },
    }
}

/// The value of a predicate on a row.
pub open spec fn holds<V>(p: PredicateModel, row: Row<V>) -> Truth
    decreases p,
{
    match p {
        PredicateModel::BooleanExpression(e) => match e {
            ExpressionModel::Predicate(p) => holds(*p, row),
            e => (row.truth)(value(e, row)),
        },
        PredicateModel::Not(p) => negation(holds(*p, row)),
        PredicateModel::Unary(op, e) => (row.unary)(op, value(e, row)),
        PredicateModel::Binary(op, l, r) => (row.binary)(op, value(l, row), value(r, row)),
        PredicateModel::Junction(op, ps) => junction(op, holds_each(ps, row)),
        PredicateModel::Opaque(name, es) => (row.opaque)(name, values(es, row)),
        PredicateModel::Unknown(name) => (row.unknown)(name),
    }
}

/// The values of the predicates of a list on a row.
pub open spec fn holds_each<V>(ps: Seq<PredicateModel>, row: Row<V>) -> Seq<Truth>
    decreases ps,
{
    if ps.len() == 0 {
        Seq::empty()
    } else {
        holds_each(ps.drop_last(), row).push(holds(ps.last(), row))
    }
}

/// The values of a list stand at the positions of its predicates.
pub broadcast proof fn lemma_holds_each<V>(ps: Seq<PredicateModel>, row: Row<V>)
    ensures
        (#[trigger] holds_each(ps, row)).len() == ps.len(),
        forall|i: int| 0 <= i < ps.len() ==> #[trigger] holds_each(ps, row)[i] == holds(ps[i], row),
    decreases ps.len(),
{
    if ps.len() > 0 {
        let init = ps.drop_last();
        lemma_holds_each(init, row);
        assert forall|i: int| 0 <= i < ps.len() implies #[trigger] holds_each(ps, row)[i] == holds(
            ps[i],
            row,
        ) by {
            if i < init.len() {
                assert(holds_each(init, row)[i] == holds(init[i], row));
            }
        }
    }
}

// ---------------------------------------------------------------------------
// Laws
// ---------------------------------------------------------------------------
/// Whether everything but columns means the same on two rows.
pub open spec fn same_operations<V>(a: Row<V>, b: Row<V>) -> bool {
    &&& a.literal == b.literal
    &&& a.of_truth == b.of_truth
    &&& a.operation == b.operation
    &&& a.patch == b.patch
    &&& a.truth == b.truth
    &&& a.unary == b.unary
    &&& a.binary == b.binary
    &&& a.opaque == b.opaque
    &&& a.unknown == b.unknown
}

/// Whether two rows have the same values in `columns`.
pub open spec fn agree_on<V>(a: Row<V>, b: Row<V>, columns: Set<Path>) -> bool {
    forall|c: Path| columns.contains(c) ==> #[trigger] (a.column)(c) == (b.column)(c)
}

/// The columns that an expression mentions decide its value.
pub proof fn law_mentioned_columns_decide_the_value<V>(e: ExpressionModel, a: Row<V>, b: Row<V>)
    requires
        same_operations(a, b),
        agree_on(a, b, expression_references(e)),
    ensures
        value(e, a) == value(e, b),
    decreases e,
{
    match e {
        ExpressionModel::Literal(_) => {},
        ExpressionModel::Column(c) => {
            assert(expression_references(e).contains(c));
        },
        ExpressionModel::Predicate(p) => {
            law_mentioned_columns_decide_the_truth(*p, a, b);
        },
        ExpressionModel::Struct(es, nullability) => {
            lemma_columns_decide_values(es, a, b);
            if let Some(n) = nullability {
                law_mentioned_columns_decide_the_value(*n, a, b);
            }
        },
        ExpressionModel::StructPatch { prepended_fields, field_patches, appended_fields } => {
            lemma_columns_decide_values(prepended_fields, a, b);
            lemma_columns_decide_insertions(field_patches, a, b);
            lemma_columns_decide_values(appended_fields, a, b);
        },
        ExpressionModel::Unary(_, x) => {
            law_mentioned_columns_decide_the_value(*x, a, b);
        },
        ExpressionModel::Binary(_, l, r) => {
            law_mentioned_columns_decide_the_value(*l, a, b);
            law_mentioned_columns_decide_the_value(*r, a, b);
        },
        ExpressionModel::Variadic(_, es) => {
            lemma_columns_decide_values(es, a, b);
        },
        ExpressionModel::Opaque(_, es) => {
            lemma_columns_decide_values(es, a, b);
        },
        ExpressionModel::Unknown(_) => {},
        ExpressionModel::ParseJson(x, _) => {
            law_mentioned_columns_decide_the_value(*x, a, b);
        },
        ExpressionModel::MapToStruct(x) => {
            law_mentioned_columns_decide_the_value(*x, a, b);
        },
    }
}

/// The columns that a predicate mentions decide whether it holds: on two rows with the same values
/// in them, it is true, false or null alike.
pub proof fn law_mentioned_columns_decide_the_truth<V>(p: PredicateModel, a: Row<V>, b: Row<V>)
    requires
        same_operations(a, b),
        agree_on(a, b, predicate_references(p)),
    ensures
        holds(p, a) == holds(p, b),
    decreases p,
{
    match p {
        PredicateModel::BooleanExpression(e) => {
            if let ExpressionModel::Predicate(q) = e {
                assert(expression_references(e) == predicate_references(*q));
                law_mentioned_columns_decide_the_truth(*q, a, b);
            } else {
                law_mentioned_columns_decide_the_value(e, a, b);
            }
        },
        PredicateModel::Not(q) => {
            law_mentioned_columns_decide_the_truth(*q, a, b);
        },
        PredicateModel::Unary(_, e) => {
            law_mentioned_columns_decide_the_value(e, a, b);
        },
        PredicateModel::Binary(_, l, r) => {
            law_mentioned_columns_decide_the_value(l, a, b);
            law_mentioned_columns_decide_the_value(r, a, b);
        },
        PredicateModel::Junction(_, ps) => {
            lemma_columns_decide_truths(ps, a, b);
        },
        PredicateModel::Opaque(_, es) => {
            lemma_columns_decide_values(es, a, b);
        },
        PredicateModel::Unknown(_) => {},
    }
}

proof fn lemma_columns_decide_values<V>(es: Seq<ExpressionModel>, a: Row<V>, b: Row<V>)
    requires
        same_operations(a, b),
        agree_on(a, b, expressions_references(es)),
    ensures
        values(es, a) == values(es, b),
    decreases es,
{
    if es.len() > 0 {
        lemma_columns_decide_values(es.drop_last(), a, b);
        law_mentioned_columns_decide_the_value(es.last(), a, b);
    }
}

proof fn lemma_columns_decide_insertions<V>(ps: Seq<FieldPatchModel>, a: Row<V>, b: Row<V>)
    requires
        same_operations(a, b),
        agree_on(a, b, field_patches_references(ps)),
    ensures
        insertions(ps, a) == insertions(ps, b),
    decreases ps,
{
    if ps.len() > 0 {
        let p = ps.last();
        assert(field_patch_references(p) == expressions_references(p.insertions));
        lemma_columns_decide_insertions(ps.drop_last(), a, b);
        lemma_columns_decide_values(p.insertions, a, b);
        assert(insertion(p, a) == insertion(p, b));
    }
}

proof fn lemma_columns_decide_truths<V>(ps: Seq<PredicateModel>, a: Row<V>, b: Row<V>)
    requires
        same_operations(a, b),
        agree_on(a, b, predicates_references(ps)),
    ensures
        holds_each(ps, a) == holds_each(ps, b),
    decreases ps,
{
    if ps.len() > 0 {
        lemma_columns_decide_truths(ps.drop_last(), a, b);
        law_mentioned_columns_decide_the_truth(ps.last(), a, b);
    }
}

} // verus!
