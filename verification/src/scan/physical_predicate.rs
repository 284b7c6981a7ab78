//! A scan's predicate in terms of the columns of files.
use std::sync::Arc;
use vstd::prelude::*;

use crate::error::{DeltaResult, Error, ErrorModel};
use crate::expressions::{
    contains_column, expression_model, expression_references, expressions_model,
    expressions_references, field_patch_model, field_patch_references, field_patches_model,
    field_patches_references, lemma_expressions_model_push, lemma_field_patches_model_push,
    lemma_predicates_model_push, lemma_predicates_references, paths, predicate_model,
    predicate_references, predicates_model, BinaryPredicateOp, ColumnName, Expression,
    ExpressionModel, FieldPatch, FieldPatchModel, JunctionPredicateOp, Path, Predicate,
    PredicateModel, PredicateRef, Scalar, ScalarModel, StructPatch, UnaryPredicateOp,
};
use crate::scan::columns::{
    get_any_level_column_physical_name, has_held_leaf, has_leaf, is_primitive, is_primitive_column,
    law_unmapped_path_is_unchanged, physical_path,
};
use crate::schema::{
    field_position, fields_model, has_field, lemma_field_position, lemma_fields_model,
    lemma_fields_model_push, physical_name, ColumnMappingMode, DataType, DataTypeModel, FieldModel,
    SchemaRef, StructField, StructType, MISSING_ANNOTATION,
};
use crate::semantics::{
    holds, holds_each, insertion, insertions, junction, lemma_holds_each, negation,
    same_operations, value, values, Row, Truth,
};

verus! {

/// What a scan's predicate says of files.
#[derive(Debug, PartialEq, Eq)]
pub enum PhysicalPredicate {
    /// A predicate on the columns of files, and the columns that it mentions.
    Present(PredicateRef, SchemaRef),
    /// No row can match, whatever a file holds.
    StaticSkipAll,
    /// Nothing that could skip a file.
    Absent,
}

/// The content of a [`PhysicalPredicate`].
pub enum PhysicalPredicateModel {
    Present(PredicateModel, Seq<FieldModel>),
    StaticSkipAll,
    Absent,
}

impl View for PhysicalPredicate {
    type V = PhysicalPredicateModel;

    open spec fn view(&self) -> PhysicalPredicateModel {
        match *self {
            PhysicalPredicate::Present(p, s) => PhysicalPredicateModel::Present(p@, s@),
            PhysicalPredicate::StaticSkipAll => PhysicalPredicateModel::StaticSkipAll,
            PhysicalPredicate::Absent => PhysicalPredicateModel::Absent,
        }
    }
}

impl Clone for PhysicalPredicate {
    fn clone(&self) -> (r: Self)
        ensures
            r@ == self@,
    {
        match self {
            PhysicalPredicate::Present(p, s) => PhysicalPredicate::Present(p.clone(), s.clone()),
            PhysicalPredicate::StaticSkipAll => PhysicalPredicate::StaticSkipAll,
            PhysicalPredicate::Absent => PhysicalPredicate::Absent,
        }
    }
}

// ---------------------------------------------------------------------------
// What holds of every row
// ---------------------------------------------------------------------------
/// The kind of an ordered value, and its rank among the values of that kind.
pub open spec fn ordinal(s: ScalarModel) -> Option<(int, int)> {
    match s {
        ScalarModel::Byte(v) => Some((0, v as int)),
        ScalarModel::Short(v) => Some((1, v as int)),
        ScalarModel::Integer(v) => Some((2, v as int)),
        ScalarModel::Long(v) => Some((3, v as int)),
        ScalarModel::Date(v) => Some((4, v as int)),
        ScalarModel::Timestamp(v) => Some((5, v as int)),
        ScalarModel::TimestampNtz(v) => Some((6, v as int)),
        _ => None,
    }
}

/// The outcome of comparing two literals, where it is known.
pub open spec fn static_comparison(op: BinaryPredicateOp, l: ScalarModel, r: ScalarModel) -> Truth {
    match (ordinal(l), ordinal(r)) {
        (Some(a), Some(b)) => if a.0 != b.0 {
            None
        } else {
            match op {
                BinaryPredicateOp::LessThan => Some(a.1 < b.1),
                BinaryPredicateOp::GreaterThan => Some(a.1 > b.1),
                BinaryPredicateOp::Equal => Some(a.1 == b.1),
                BinaryPredicateOp::Distinct => Some(a.1 != b.1),
                BinaryPredicateOp::In => None,
            }
        },
        _ => None,
    }
}

/// The value that a predicate has on every row, where its literals alone decide it.
pub open spec fn static_truth(p: PredicateModel) -> Truth
    decreases p,
{
    match p {
        PredicateModel::BooleanExpression(ExpressionModel::Literal(ScalarModel::Boolean(b))) =>
            Some(b),
        PredicateModel::BooleanExpression(ExpressionModel::Predicate(p)) => static_truth(*p),
        PredicateModel::Not(p) => negation(static_truth(*p)),
        PredicateModel::Unary(UnaryPredicateOp::IsNull, ExpressionModel::Literal(s)) => Some(
            s is Null,
        ),
        PredicateModel::Binary(op, ExpressionModel::Literal(l), ExpressionModel::Literal(r)) =>
            static_comparison(op, l, r),
        PredicateModel::Junction(op, ps) => junction(op, static_truths(ps)),
        _ => None,
    }
}

/// The static values of the predicates of a list.
pub open spec fn static_truths(ps: Seq<PredicateModel>) -> Seq<Truth>
    decreases ps,
{
    if ps.len() == 0 {
        Seq::empty()
    } else {
        static_truths(ps.drop_last()).push(static_truth(ps.last()))
    }
}

fn scalar_ordinal(s: &Scalar) -> (r: Option<(u8, i64)>)
    ensures
        match r {
            Some(o) => ordinal(s@) == Some((o.0 as int, o.1 as int)),
            None => ordinal(s@) is None,
        },
{
    match s {
        Scalar::Byte(v) => Some((0u8, *v as i64)),
        Scalar::Short(v) => Some((1u8, *v as i64)),
        Scalar::Integer(v) => Some((2u8, *v as i64)),
        Scalar::Long(v) => Some((3u8, *v)),
        Scalar::Date(v) => Some((4u8, *v as i64)),
        Scalar::Timestamp(v) => Some((5u8, *v)),
        Scalar::TimestampNtz(v) => Some((6u8, *v)),
        _ => None,
    }
}

fn evaluate_comparison(op: BinaryPredicateOp, l: &Scalar, r: &Scalar) -> (t: Truth)
    ensures
        t == static_comparison(op, l@, r@),
{
    match (scalar_ordinal(l), scalar_ordinal(r)) {
        (Some(a), Some(b)) => if a.0 != b.0 {
            None
        } else {
            match op {
                BinaryPredicateOp::LessThan => Some(a.1 < b.1),
                BinaryPredicateOp::GreaterThan => Some(a.1 > b.1),
                BinaryPredicateOp::Equal => Some(a.1 == b.1),
                BinaryPredicateOp::Distinct => Some(a.1 != b.1),
                BinaryPredicateOp::In => None,
            }
        },
        _ => None,
    }
}

/// The value that a predicate has on every row, where its literals alone decide it.
pub fn evaluate_statically(p: &Predicate) -> (r: Truth)
    ensures
        r == static_truth(p@),
    decreases p,
{
    proof {
        reveal_with_fuel(expression_model, 2);
        reveal_with_fuel(predicate_model, 2);
    }
    match p {
        Predicate::BooleanExpression(e) => match e {
            Expression::Literal(Scalar::Boolean(b)) => Some(*b),
            Expression::Predicate(inner) => evaluate_statically(inner),
            _ => None,
        },
        Predicate::Not(inner) => match evaluate_statically(inner) {
            Some(b) => Some(!b),
            None => None,
        },
        Predicate::Unary(op, e) => match (op, e) {
            (UnaryPredicateOp::IsNull, Expression::Literal(s)) => match s {
                Scalar::Null(_) => Some(true),
                _ => Some(false),
            },
            _ => None,
        },
        Predicate::Binary(op, l, r) => match (l, r) {
            (Expression::Literal(l), Expression::Literal(r)) => evaluate_comparison(*op, l, r),
            _ => None,
        },
        Predicate::Junction(op, ps) => evaluate_junction(*op, ps),
        Predicate::Opaque(_, _) => None,
        Predicate::Unknown(_) => None,
    }
}

fn evaluate_junction(op: JunctionPredicateOp, ps: &Vec<Predicate>) -> (r: Truth)
    ensures
        r == junction(op, static_truths(predicates_model(ps@))),
    decreases ps,
{
    let dominant: bool = op == JunctionPredicateOp::Or;
    let mut found_dominant: bool = false;
    let mut found_null: bool = false;
    let mut i: usize = 0;
    while i < ps.len()
        invariant
            i <= ps.len(),
            found_dominant == static_truths(predicates_model(ps@.take(i as int))).contains(
                Some(dominant),
            ),
            found_null == static_truths(predicates_model(ps@.take(i as int))).contains(None),
        decreases ps.len() - i,
    {
        let ghost before = static_truths(predicates_model(ps@.take(i as int)));
        let t = evaluate_statically(&ps[i]);
        proof {
            let model = predicates_model(ps@.take(i as int));
            lemma_predicates_model_push(ps@.take(i as int), ps@[i as int]);
            assert(ps@.take(i as int).push(ps@[i as int]) =~= ps@.take(i + 1));
            assert(predicates_model(ps@.take(i + 1)).drop_last() =~= model);
            let after = static_truths(predicates_model(ps@.take(i + 1)));
            assert(after == before.push(t));
            lemma_contains_push(before, t, Some(dominant));
            lemma_contains_push(before, t, None);
        }
        match t {
            Some(b) => {
                if b == dominant {
                    found_dominant = true;
                }
            },
            None => {
                found_null = true;
            },
        }
        i = i + 1;
    }
    assert(ps@.take(i as int) =~= ps@);
    if found_dominant {
        Some(dominant)
    } else if found_null {
        None
    } else {
        Some(!dominant)
    }
}

proof fn lemma_contains_push(s: Seq<Truth>, t: Truth, x: Truth)
    ensures
        s.push(t).contains(x) == (s.contains(x) || t == x),
{
    let more = s.push(t);
    if s.contains(x) {
        let i = choose|i: int| 0 <= i < s.len() && s[i] == x;
        assert(more[i] == x);
    }
    assert(more[s.len() as int] == t);
    if more.contains(x) {
        let i = choose|i: int| 0 <= i < more.len() && more[i] == x;
        if i < s.len() {
            assert(s[i] == x);
        }
    }
}

/// Whether a row gives literals, and comparisons of literals, their usual meaning.
pub open spec fn usual_literals<V>(row: Row<V>) -> bool {
    &&& forall|b: bool|
        (row.truth)(#[trigger] (row.literal)(ScalarModel::Boolean(b))) == Some(b)
    &&& forall|s: ScalarModel|
        (row.unary)(UnaryPredicateOp::IsNull, #[trigger] (row.literal)(s)) == Some(s is Null)
    &&& forall|op: BinaryPredicateOp, l: ScalarModel, r: ScalarModel|
        (#[trigger] static_comparison(op, l, r)) is Some ==> (row.binary)(
            op,
            (row.literal)(l),
            (row.literal)(r),
        ) == static_comparison(op, l, r)
}

/// What is decided from literals alone holds of every row: a predicate that is statically true or
/// false is true or false on it.
pub proof fn law_static_truth_holds_of_every_row<V>(p: PredicateModel, row: Row<V>)
    requires
        usual_literals(row),
        static_truth(p) is Some,
    ensures
        holds(p, row) == static_truth(p),
    decreases p,
{
    match p {
        PredicateModel::BooleanExpression(e) => match e {
            ExpressionModel::Predicate(inner) => {
                law_static_truth_holds_of_every_row(*inner, row);
            },
            ExpressionModel::Literal(s) => {
                assert(value(e, row) == (row.literal)(s));
                assert(holds(p, row) == (row.truth)(value(e, row)));
            },
            _ => {},
        },
        PredicateModel::Not(inner) => {
            law_static_truth_holds_of_every_row(*inner, row);
        },
        PredicateModel::Unary(op, e) => {
            if let ExpressionModel::Literal(s) = e {
                assert(value(e, row) == (row.literal)(s));
                assert(holds(p, row) == (row.unary)(op, value(e, row)));
            }
        },
        PredicateModel::Binary(op, l, r) => {
            if let (ExpressionModel::Literal(a), ExpressionModel::Literal(b)) = (l, r) {
                assert(value(l, row) == (row.literal)(a));
                assert(value(r, row) == (row.literal)(b));
                assert(holds(p, row) == (row.binary)(op, value(l, row), value(r, row)));
                assert(static_truth(p) == static_comparison(op, a, b));
            }
        },
        PredicateModel::Junction(op, ps) => {
            lemma_static_truths(ps);
            lemma_holds_each(ps, row);
            let known = static_truths(ps);
            let held = holds_each(ps, row);
            assert forall|i: int| 0 <= i < ps.len() && (#[trigger] known[i]) is Some implies held[i]
                == known[i] by {
                law_static_truth_holds_of_every_row(ps[i], row);
            }
            let dominant = Some(op == JunctionPredicateOp::Or);
            if known.contains(dominant) {
                let i = choose|i: int| 0 <= i < known.len() && known[i] == dominant;
                assert(held[i] == dominant);
            } else {
                assert(!known.contains(None::<bool>));
                assert forall|i: int| 0 <= i < held.len() implies held[i] == Some(
                    op != JunctionPredicateOp::Or,
                ) by {
                    assert(known[i] != None::<bool>);
                    assert(known[i] != dominant);
                }
            }
        },
        _ => {},
    }
}

proof fn lemma_static_truths(ps: Seq<PredicateModel>)
    ensures
        static_truths(ps).len() == ps.len(),
        forall|i: int|
            0 <= i < ps.len() ==> #[trigger] static_truths(ps)[i] == static_truth(ps[i]),
    decreases ps.len(),
{
    if ps.len() > 0 {
        let init = ps.drop_last();
        lemma_static_truths(init);
        assert forall|i: int| 0 <= i < ps.len() implies #[trigger] static_truths(ps)[i]
            == static_truth(ps[i]) by {
            if i < init.len() {
                assert(static_truths(init)[i] == static_truth(init[i]));
            }
        }
    }
}

// ---------------------------------------------------------------------------
// The columns of files
// ---------------------------------------------------------------------------
/// `f` as files name it, with the type `data_type`.
pub open spec fn renamed(f: FieldModel, data_type: DataTypeModel, mode: ColumnMappingMode) -> Result<
    Option<FieldModel>,
    ErrorModel,
> {
    match physical_name(f, mode) {
        Some(name) => Ok(Some(FieldModel { name, data_type, ..f })),
        None => Err(ErrorModel::Schema(MISSING_ANNOTATION@)),
    }
}

/// What is left of a field inside `prefix` when only the primitive columns `wanted` are kept, named
/// as files name it. Fails where an annotation is missing on something that is kept.
pub open spec fn referenced_field(
    f: FieldModel,
    wanted: Set<Path>,
    prefix: Path,
    mode: ColumnMappingMode,
) -> Result<Option<FieldModel>, ErrorModel>
    decreases f,
{
    let path = prefix.push(f.name);
    match f.data_type {
        DataTypeModel::Primitive(_) => if wanted.contains(path) {
            renamed(f, f.data_type, mode)
        } else {
            Ok(None)
        },
        DataTypeModel::Struct(inner) => match referenced_fields(inner, wanted, path, mode) {
            Ok(kept) => if kept.len() == 0 {
                Ok(None)
            } else {
                renamed(f, DataTypeModel::Struct(kept), mode)
            },
            Err(e) => Err(e),
        },
        _ => Ok(None),
    }
}

/// What is left of `fields`, in order.
pub open spec fn referenced_fields(
    fields: Seq<FieldModel>,
    wanted: Set<Path>,
    prefix: Path,
    mode: ColumnMappingMode,
) -> Result<Seq<FieldModel>, ErrorModel>
    decreases fields,
{
    if fields.len() == 0 {
        Ok(Seq::empty())
    } else {
        match referenced_fields(fields.drop_last(), wanted, prefix, mode) {
            Ok(init) => match referenced_field(fields.last(), wanted, prefix, mode) {
                Ok(Some(f)) => Ok(init.push(f)),
                Ok(None) => Ok(init),
                Err(e) => Err(e),
            },
            Err(e) => Err(e),
        }
    }
}

proof fn lemma_referenced_fields_error(
    fields: Seq<FieldModel>,
    n: int,
    wanted: Set<Path>,
    prefix: Path,
    mode: ColumnMappingMode,
)
    requires
        0 <= n <= fields.len(),
        referenced_fields(fields.take(n), wanted, prefix, mode) is Err,
    ensures
        referenced_fields(fields, wanted, prefix, mode) == referenced_fields(
            fields.take(n),
            wanted,
            prefix,
            mode,
        ),
    decreases fields.len(),
{
    if n < fields.len() {
        assert(fields.drop_last().take(n) =~= fields.take(n));
        lemma_referenced_fields_error(fields.drop_last(), n, wanted, prefix, mode);
    } else {
        assert(fields.take(n) =~= fields);
    }
}

fn rename(f: &StructField, data_type: DataType, mode: ColumnMappingMode) -> (r: DeltaResult<
    StructField,
>)
    ensures
        match r {
            Ok(g) => renamed(f@, data_type@, mode) == Ok::<Option<FieldModel>, ErrorModel>(
                Some(g@),
            ),
            Err(e) => renamed(f@, data_type@, mode) == Err::<Option<FieldModel>, ErrorModel>(e@),
        },
{
    match f.physical_name(mode) {
        Some(name) => {
            let copy = f.clone();
            Ok(
                StructField {
                    name,
                    data_type,
                    nullable: copy.nullable,
                    metadata: copy.metadata,
                    metadata_column: copy.metadata_column,
                },
            )
        },
        None => Err(Error::Schema(MISSING_ANNOTATION.to_owned())),
    }
}

fn keep_referenced_field(
    f: &StructField,
    wanted: &Vec<ColumnName>,
    prefix: &ColumnName,
    mode: ColumnMappingMode,
) -> (r: DeltaResult<Option<StructField>>)
    ensures
        match r {
            Ok(Some(g)) => referenced_field(f@, paths(wanted@).to_set(), prefix@, mode) == Ok::<
                Option<FieldModel>,
                ErrorModel,
            >(Some(g@)),
            Ok(None) => referenced_field(f@, paths(wanted@).to_set(), prefix@, mode) == Ok::<
                Option<FieldModel>,
                ErrorModel,
            >(None),
            Err(e) => referenced_field(f@, paths(wanted@).to_set(), prefix@, mode) == Err::<
                Option<FieldModel>,
                ErrorModel,
            >(e@),
        },
    decreases f,
{
    let mut own: Vec<String> = Vec::new();
    own.push(f.name.clone());
    let path = prefix.join(&ColumnName::new(own));
    assert(path@ =~= prefix@.push(f@.name));
    match &f.data_type {
        DataType::Primitive(p) => if contains_column(wanted, &path) {
            match rename(f, DataType::Primitive(*p), mode) {
                Ok(g) => Ok(Some(g)),
                Err(e) => Err(e),
            }
        } else {
            Ok(None)
        },
        DataType::Struct(inner) => {
            match keep_referenced_fields(&inner.fields, wanted, &path, mode) {
                Ok(kept) => {
                    proof {
                        lemma_fields_model(kept@);
                    }
                    if kept.len() == 0 {
                        Ok(None)
                    } else {
                        match rename(
                            f,
                            DataType::Struct(Box::new(StructType::new_unchecked(kept))),
                            mode,
                        ) {
                            Ok(g) => Ok(Some(g)),
                            Err(e) => Err(e),
                        }
                    }
                },
                Err(e) => Err(e),
            }
        },
        _ => Ok(None),
    }
}

fn keep_referenced_fields(
    fields: &Vec<StructField>,
    wanted: &Vec<ColumnName>,
    prefix: &ColumnName,
    mode: ColumnMappingMode,
) -> (r: DeltaResult<Vec<StructField>>)
    ensures
        match r {
            Ok(kept) => referenced_fields(
                fields_model(fields@),
                paths(wanted@).to_set(),
                prefix@,
                mode,
            ) == Ok::<Seq<FieldModel>, ErrorModel>(fields_model(kept@)),
            Err(e) => referenced_fields(
                fields_model(fields@),
                paths(wanted@).to_set(),
                prefix@,
                mode,
            ) == Err::<Seq<FieldModel>, ErrorModel>(e@),
        },
    decreases fields,
{
    let ghost columns = paths(wanted@).to_set();
    let ghost model = fields_model(fields@);
    let mut kept: Vec<StructField> = Vec::new();
    let mut i: usize = 0;
    proof {
        lemma_fields_model(fields@);
    }
    while i < fields.len()
        invariant
            i <= fields.len(),
            columns == paths(wanted@).to_set(),
            model == fields_model(fields@),
            model.len() == fields.len(),
            referenced_fields(model.take(i as int), columns, prefix@, mode) == Ok::<
                Seq<FieldModel>,
                ErrorModel,
            >(fields_model(kept@)),
        decreases fields.len() - i,
    {
        proof {
            lemma_fields_model(fields@);
            assert(model[i as int] == fields@[i as int]@);
            assert(model.take(i + 1).drop_last() =~= model.take(i as int));
            assert(model.take(i + 1).last() == model[i as int]);
        }
        match keep_referenced_field(&fields[i], wanted, prefix, mode) {
            Ok(Some(f)) => {
                proof {
                    lemma_fields_model_push(kept@, f);
                }
                kept.push(f);
            },
            Ok(None) => {},
            Err(e) => {
                proof {
                    lemma_referenced_fields_error(model, i + 1, columns, prefix@, mode);
                }
                return Err(e);
            },
        }
        i = i + 1;
    }
    assert(model.take(i as int) =~= model);
    Ok(kept)
}

// ---------------------------------------------------------------------------
// The predicate on the columns of files
// ---------------------------------------------------------------------------
/// Where files hold the column at `path`; the path itself where they do not hold it.
pub open spec fn mapped_path(path: Path, fields: Seq<FieldModel>, mode: ColumnMappingMode) -> Path {
    match physical_path(fields, path, mode) {
        Some(p) => p,
        None => path,
    }
}

/// An expression with every column named as files name it.
pub open spec fn mapped_expression(
    e: ExpressionModel,
    fields: Seq<FieldModel>,
    mode: ColumnMappingMode,
) -> ExpressionModel
    decreases e,
{
    match e {
        ExpressionModel::Literal(_) => e,
        ExpressionModel::Column(c) => ExpressionModel::Column(mapped_path(c, fields, mode)),
        ExpressionModel::Predicate(p) => ExpressionModel::Predicate(
            Box::new(mapped_predicate(*p, fields, mode)),
        ),
        ExpressionModel::Struct(es, nullability) => ExpressionModel::Struct(
            mapped_expressions(es, fields, mode),
            match nullability {
                Some(n) => Some(Box::new(mapped_expression(*n, fields, mode))),
                None => None,
            },
        ),
        ExpressionModel::StructPatch { prepended_fields, field_patches, appended_fields } =>
            ExpressionModel::StructPatch {
                prepended_fields: mapped_expressions(prepended_fields, fields, mode),
                field_patches: mapped_field_patches(field_patches, fields, mode),
                appended_fields: mapped_expressions(appended_fields, fields, mode),
            },
        ExpressionModel::Unary(op, e) => ExpressionModel::Unary(
            op,
            Box::new(mapped_expression(*e, fields, mode)),
        ),
        ExpressionModel::Binary(op, l, r) => ExpressionModel::Binary(
            op,
            Box::new(mapped_expression(*l, fields, mode)),
            Box::new(mapped_expression(*r, fields, mode)),
        ),
        ExpressionModel::Variadic(op, es) => ExpressionModel::Variadic(
            op,
            mapped_expressions(es, fields, mode),
        ),
        ExpressionModel::Opaque(name, es) => ExpressionModel::Opaque(
            name,
            mapped_expressions(es, fields, mode),
        ),
        ExpressionModel::Unknown(_) => e,
        ExpressionModel::ParseJson(e, schema) => ExpressionModel::ParseJson(
            Box::new(mapped_expression(*e, fields, mode)),
            schema,
        ),
        ExpressionModel::MapToStruct(e) => ExpressionModel::MapToStruct(
            Box::new(mapped_expression(*e, fields, mode)),
        ),
    }
}

/// The expressions of a list with every column named as files name it.
pub open spec fn mapped_expressions(
    s: Seq<ExpressionModel>,
    fields: Seq<FieldModel>,
    mode: ColumnMappingMode,
) -> Seq<ExpressionModel>
    decreases s,
{
    if s.len() == 0 {
        Seq::empty()
    } else {
        mapped_expressions(s.drop_last(), fields, mode).push(mapped_expression(s.last(), fields, mode))
    }
}

/// A field patch with every column named as files name it.
pub open spec fn mapped_field_patch(
    p: FieldPatchModel,
    fields: Seq<FieldModel>,
    mode: ColumnMappingMode,
) -> FieldPatchModel
    decreases p,
{
    FieldPatchModel {
        field_name: p.field_name,
        insertions: mapped_expressions(p.insertions, fields, mode),
    }
}

/// The field patches of a list with every column named as files name it.
pub open spec fn mapped_field_patches(
    s: Seq<FieldPatchModel>,
    fields: Seq<FieldModel>,
    mode: ColumnMappingMode,
) -> Seq<FieldPatchModel>
    decreases s,
{
    if s.len() == 0 {
        Seq::empty()
    } else {
        mapped_field_patches(s.drop_last(), fields, mode).push(mapped_field_patch(s.last(), fields, mode))
    }
}

/// A predicate with every column named as files name it.
pub open spec fn mapped_predicate(
    p: PredicateModel,
    fields: Seq<FieldModel>,
    mode: ColumnMappingMode,
) -> PredicateModel
    decreases p,
{
    match p {
        PredicateModel::BooleanExpression(e) => PredicateModel::BooleanExpression(
            mapped_expression(e, fields, mode),
        ),
        PredicateModel::Not(p) => PredicateModel::Not(Box::new(mapped_predicate(*p, fields, mode))),
        PredicateModel::Unary(op, e) => PredicateModel::Unary(
            op,
            mapped_expression(e, fields, mode),
        ),
        PredicateModel::Binary(op, l, r) => PredicateModel::Binary(
            op,
            mapped_expression(l, fields, mode),
            mapped_expression(r, fields, mode),
        ),
        PredicateModel::Junction(op, ps) => PredicateModel::Junction(
            op,
            mapped_predicates(ps, fields, mode),
        ),
        PredicateModel::Opaque(name, es) => PredicateModel::Opaque(
            name,
            mapped_expressions(es, fields, mode),
        ),
        PredicateModel::Unknown(_) => p,
    }
}

/// The predicates of a list with every column named as files name it.
pub open spec fn mapped_predicates(
    s: Seq<PredicateModel>,
    fields: Seq<FieldModel>,
    mode: ColumnMappingMode,
) -> Seq<PredicateModel>
    decreases s,
{
    if s.len() == 0 {
        Seq::empty()
    } else {
        mapped_predicates(s.drop_last(), fields, mode).push(mapped_predicate(s.last(), fields, mode))
    }
}

fn map_expression(e: &Expression, schema: &StructType, mode: ColumnMappingMode) -> (r: Expression)
    ensures
        r@ == mapped_expression(e@, schema@, mode),
    decreases e,
{
    match e {
        Expression::Literal(s) => Expression::Literal(s.clone()),
        Expression::Column(c) => match get_any_level_column_physical_name(schema, c, mode) {
            Ok(p) => Expression::Column(p),
            Err(_) => Expression::Column(c.clone()),
        },
        Expression::Predicate(p) => Expression::Predicate(
            Box::new(map_predicate(p, schema, mode)),
        ),
        Expression::Struct(es, nullability) => {
            let es = map_expressions(es, schema, mode);
            match nullability {
                Some(n) => {
                    let n = map_expression(n, schema, mode);
                    Expression::Struct(es, Some(Box::new(n)))
                },
                None => Expression::Struct(es, None),
            }
        },
        Expression::StructPatch(patch) => Expression::StructPatch(
            StructPatch {
                prepended_fields: map_expressions(&patch.prepended_fields, schema, mode),
                field_patches: map_field_patches(&patch.field_patches, schema, mode),
                appended_fields: map_expressions(&patch.appended_fields, schema, mode),
            },
        ),
        Expression::Unary(op, e) => Expression::Unary(
            *op,
            Box::new(map_expression(e, schema, mode)),
        ),
        Expression::Binary(op, l, r) => Expression::Binary(
            *op,
            Box::new(map_expression(l, schema, mode)),
            Box::new(map_expression(r, schema, mode)),
        ),
        Expression::Variadic(op, es) => Expression::Variadic(
            *op,
            map_expressions(es, schema, mode),
        ),
        Expression::Opaque(name, es) => Expression::Opaque(
            name.clone(),
            map_expressions(es, schema, mode),
        ),
        Expression::Unknown(name) => Expression::Unknown(name.clone()),
        Expression::ParseJson(e, output) => Expression::ParseJson(
            Box::new(map_expression(e, schema, mode)),
            output.clone(),
        ),
        Expression::MapToStruct(e) => Expression::MapToStruct(
            Box::new(map_expression(e, schema, mode)),
        ),
    }
}

fn map_expressions(
    v: &Vec<Expression>,
    schema: &StructType,
    mode: ColumnMappingMode,
) -> (r: Vec<Expression>)
    ensures
        expressions_model(r@) == mapped_expressions(expressions_model(v@), schema@, mode),
    decreases v,
{
    let mut r: Vec<Expression> = Vec::new();
    let mut i: usize = 0;
    while i < v.len()
        invariant
            i <= v.len(),
            expressions_model(r@) == mapped_expressions(expressions_model(v@.take(i as int)), schema@, mode),
        decreases v.len() - i,
    {
        let x = map_expression(&v[i], schema, mode);
        proof {
            let prefix = v@.take(i as int);
            lemma_expressions_model_push(prefix, v@[i as int]);
            lemma_expressions_model_push(r@, x);
            assert(prefix.push(v@[i as int]) =~= v@.take(i + 1));
            assert(expressions_model(v@.take(i + 1)).drop_last() =~= expressions_model(prefix));
        }
        r.push(x);
        i = i + 1;
    }
    assert(v@.take(i as int) =~= v@);
    r
}

fn map_field_patch(p: &FieldPatch, schema: &StructType, mode: ColumnMappingMode) -> (r: FieldPatch)
    ensures
        field_patch_model(r) == mapped_field_patch(field_patch_model(*p), schema@, mode),
    decreases p,
{
    FieldPatch {
        field_name: p.field_name.clone(),
        insertions: map_expressions(&p.insertions, schema, mode),
    }
}

fn map_field_patches(
    v: &Vec<FieldPatch>,
    schema: &StructType,
    mode: ColumnMappingMode,
) -> (r: Vec<FieldPatch>)
    ensures
        field_patches_model(r@) == mapped_field_patches(field_patches_model(v@), schema@, mode),
    decreases v,
{
    let mut r: Vec<FieldPatch> = Vec::new();
    let mut i: usize = 0;
    while i < v.len()
        invariant
            i <= v.len(),
            field_patches_model(r@) == mapped_field_patches(field_patches_model(v@.take(i as int)), schema@, mode),
        decreases v.len() - i,
    {
        let x = map_field_patch(&v[i], schema, mode);
        proof {
            let prefix = v@.take(i as int);
            lemma_field_patches_model_push(prefix, v@[i as int]);
            lemma_field_patches_model_push(r@, x);
            assert(prefix.push(v@[i as int]) =~= v@.take(i + 1));
            assert(field_patches_model(v@.take(i + 1)).drop_last() =~= field_patches_model(prefix));
        }
        r.push(x);
        i = i + 1;
    }
    assert(v@.take(i as int) =~= v@);
    r
}

fn map_predicate(p: &Predicate, schema: &StructType, mode: ColumnMappingMode) -> (r: Predicate)
    ensures
        r@ == mapped_predicate(p@, schema@, mode),
    decreases p,
{
    match p {
        Predicate::BooleanExpression(e) => Predicate::BooleanExpression(
            map_expression(e, schema, mode),
        ),
        Predicate::Not(p) => Predicate::Not(Box::new(map_predicate(p, schema, mode))),
        Predicate::Unary(op, e) => Predicate::Unary(*op, map_expression(e, schema, mode)),
        Predicate::Binary(op, l, r) => Predicate::Binary(
            *op,
            map_expression(l, schema, mode),
            map_expression(r, schema, mode),
        ),
        Predicate::Junction(op, ps) => Predicate::Junction(*op, map_predicates(ps, schema, mode)),
        Predicate::Opaque(name, es) => Predicate::Opaque(
            name.clone(),
            map_expressions(es, schema, mode),
        ),
        Predicate::Unknown(name) => Predicate::Unknown(name.clone()),
    }
}

fn map_predicates(
    v: &Vec<Predicate>,
    schema: &StructType,
    mode: ColumnMappingMode,
) -> (r: Vec<Predicate>)
    ensures
        predicates_model(r@) == mapped_predicates(predicates_model(v@), schema@, mode),
    decreases v,
{
    let mut r: Vec<Predicate> = Vec::new();
    let mut i: usize = 0;
    while i < v.len()
        invariant
            i <= v.len(),
            predicates_model(r@) == mapped_predicates(predicates_model(v@.take(i as int)), schema@, mode),
        decreases v.len() - i,
    {
        let x = map_predicate(&v[i], schema, mode);
        proof {
            let prefix = v@.take(i as int);
            lemma_predicates_model_push(prefix, v@[i as int]);
            lemma_predicates_model_push(r@, x);
            assert(prefix.push(v@[i as int]) =~= v@.take(i + 1));
            assert(predicates_model(v@.take(i + 1)).drop_last() =~= predicates_model(prefix));
        }
        r.push(x);
        i = i + 1;
    }
    assert(v@.take(i as int) =~= v@);
    r
}

// ---------------------------------------------------------------------------
// Physical predicates
// ---------------------------------------------------------------------------
/// Reported where a predicate mentions a column that is not a primitive column of the schema.
pub const UNKNOWN_COLUMN: &'static str = "Predicate references unknown column";

/// What `p` says of the files that hold a table with the given logical fields.
pub open spec fn physical_predicate(
    p: PredicateModel,
    fields: Seq<FieldModel>,
    mode: ColumnMappingMode,
) -> Result<PhysicalPredicateModel, ErrorModel> {
    let mentioned = predicate_references(p);
    if static_truth(p) == Some(false) {
        Ok(PhysicalPredicateModel::StaticSkipAll)
    } else if exists|c: Path| #[trigger] mentioned.contains(c) && !is_primitive_column(fields, c) {
        Err(ErrorModel::MissingColumn(UNKNOWN_COLUMN@))
    } else {
        match referenced_fields(fields, mentioned, Seq::empty(), mode) {
            Ok(kept) => if kept.len() == 0 {
                Ok(PhysicalPredicateModel::Absent)
            } else {
                Ok(PhysicalPredicateModel::Present(mapped_predicate(p, fields, mode), kept))
            },
            Err(e) => Err(e),
        }
    }
}

impl PhysicalPredicate {
    /// What `predicate` says of the files that hold a table with the given logical schema.
    pub fn try_new(
        predicate: &Predicate,
        logical_schema: &StructType,
        mode: ColumnMappingMode,
    ) -> (r: DeltaResult<PhysicalPredicate>)
        ensures
            match r {
                Ok(p) => physical_predicate(predicate@, logical_schema@, mode) == Ok::<
                    PhysicalPredicateModel,
                    ErrorModel,
                >(p@),
                Err(e) => physical_predicate(predicate@, logical_schema@, mode) == Err::<
                    PhysicalPredicateModel,
                    ErrorModel,
                >(e@),
            },
    {
        if let Some(false) = evaluate_statically(predicate) {
            return Ok(PhysicalPredicate::StaticSkipAll);
        }
        let mentioned = predicate.references();
        let ghost columns = predicate_references(predicate@);
        let mut i: usize = 0;
        while i < mentioned.len()
            invariant
                i <= mentioned.len(),
                columns == predicate_references(predicate@),
                columns == paths(mentioned@).to_set(),
                static_truth(predicate@) != Some(false),
                forall|j: int|
                    0 <= j < i ==> is_primitive_column(logical_schema@, (#[trigger] mentioned@[j])@),
            decreases mentioned.len() - i,
        {
            if !is_primitive(logical_schema, &mentioned[i]) {
                proof {
                    assert(paths(mentioned@)[i as int] == mentioned@[i as int]@);
                    assert(columns.contains(mentioned@[i as int]@));
                }
                return Err(Error::MissingColumn(UNKNOWN_COLUMN.to_owned()));
            }
            i = i + 1;
        }
        assert forall|c: Path| #[trigger] columns.contains(c) implies is_primitive_column(
            logical_schema@,
            c,
        ) by {
            let j = choose|j: int| 0 <= j < paths(mentioned@).len() && paths(mentioned@)[j] == c;
            assert(mentioned@[j]@ == c);
        }
        let root = ColumnName::new(Vec::new());
        assert(root@ =~= Seq::empty());
        match keep_referenced_fields(&logical_schema.fields, &mentioned, &root, mode) {
            Ok(kept) => {
                proof {
                    lemma_fields_model(kept@);
                }
                if kept.len() == 0 {
                    Ok(PhysicalPredicate::Absent)
                } else {
                    Ok(
                        PhysicalPredicate::Present(
                            Arc::new(map_predicate(predicate, logical_schema, mode)),
                            Arc::new(StructType::new_unchecked(kept)),
                        ),
                    )
                }
            },
            Err(e) => Err(e),
        }
    }
}

// ---------------------------------------------------------------------------
// Laws
// ---------------------------------------------------------------------------
/// Whether `physical` is the row `logical` as files hold it: a column that files hold has its value
/// there, and everything but columns means the same.
pub open spec fn is_held_as<V>(
    logical: Row<V>,
    physical: Row<V>,
    fields: Seq<FieldModel>,
    mode: ColumnMappingMode,
) -> bool {
    &&& same_operations(logical, physical)
    &&& forall|c: Path|
        (#[trigger] physical_path(fields, c, mode)) matches Some(p) ==> (physical.column)(p) == (
        logical.column)(c)
}

/// Whether `physical` has the values that `logical` has in `columns`, each where a predicate on files
/// looks for it.
spec fn are_found<V>(
    columns: Set<Path>,
    fields: Seq<FieldModel>,
    mode: ColumnMappingMode,
    logical: Row<V>,
    physical: Row<V>,
) -> bool {
    forall|c: Path|
        columns.contains(c) ==> (physical.column)(#[trigger] mapped_path(c, fields, mode)) == (
        logical.column)(c)
}

/// Naming columns as files name them does not change what a predicate says of a row. A column that
/// files do not hold keeps its name, and has to have its value there.
pub proof fn law_mapped_predicate_means_the_same<V>(
    p: PredicateModel,
    fields: Seq<FieldModel>,
    mode: ColumnMappingMode,
    logical: Row<V>,
    physical: Row<V>,
)
    requires
        is_held_as(logical, physical, fields, mode),
        forall|c: Path|
            (#[trigger] physical_path(fields, c, mode)) is None ==> (physical.column)(c) == (
            logical.column)(c),
    ensures
        holds(mapped_predicate(p, fields, mode), physical) == holds(p, logical),
{
    assert(are_found(predicate_references(p), fields, mode, logical, physical)) by {
        assert forall|c: Path| predicate_references(p).contains(c) implies (physical.column)(
            #[trigger] mapped_path(c, fields, mode),
        ) == (logical.column)(c) by {
            if physical_path(fields, c, mode) is None {
                assert((physical.column)(c) == (logical.column)(c));
            }
        }
    }
    lemma_mapped_truth(p, fields, mode, logical, physical);
}

/// Naming columns as files name them does not change whether a predicate holds.
proof fn lemma_mapped_truth<V>(
    p: PredicateModel,
    fields: Seq<FieldModel>,
    mode: ColumnMappingMode,
    logical: Row<V>,
    physical: Row<V>,
)
    requires
        same_operations(logical, physical),
        are_found(predicate_references(p), fields, mode, logical, physical),
    ensures
        holds(mapped_predicate(p, fields, mode), physical) == holds(p, logical),
    decreases p,
{
    match p {
        PredicateModel::BooleanExpression(e) => {
            if let ExpressionModel::Predicate(inner) = e {
                assert(expression_references(e) == predicate_references(*inner));
                lemma_mapped_truth(*inner, fields, mode, logical, physical);
                assert(mapped_expression(e, fields, mode) == ExpressionModel::Predicate(
                    Box::new(mapped_predicate(*inner, fields, mode)),
                ));
            } else {
                lemma_mapped_value(e, fields, mode, logical, physical);
                assert(!(mapped_expression(e, fields, mode) is Predicate));
            }
        },
        PredicateModel::Not(inner) => {
            lemma_mapped_truth(*inner, fields, mode, logical, physical);
        },
        PredicateModel::Unary(_, e) => {
            lemma_mapped_value(e, fields, mode, logical, physical);
        },
        PredicateModel::Binary(_, l, r) => {
            lemma_mapped_value(l, fields, mode, logical, physical);
            lemma_mapped_value(r, fields, mode, logical, physical);
        },
        PredicateModel::Junction(_, ps) => {
            let qs = mapped_predicates(ps, fields, mode);
            lemma_mapped_predicates(ps, fields, mode);
            lemma_holds_each(ps, logical);
            lemma_holds_each(qs, physical);
            assert forall|i: int| 0 <= i < ps.len() implies holds_each(qs, physical)[i]
                == holds_each(ps, logical)[i] by {
                lemma_predicates_references(ps, i);
                lemma_mapped_truth(ps[i], fields, mode, logical, physical);
                assert(qs[i] == mapped_predicate(ps[i], fields, mode));
            }
            assert(holds_each(qs, physical) =~= holds_each(ps, logical));
        },
        PredicateModel::Opaque(_, es) => {
            lemma_mapped_values(es, fields, mode, logical, physical);
        },
        PredicateModel::Unknown(_) => {},
    }
}

proof fn lemma_mapped_predicates(
    ps: Seq<PredicateModel>,
    fields: Seq<FieldModel>,
    mode: ColumnMappingMode,
)
    ensures
        mapped_predicates(ps, fields, mode).len() == ps.len(),
        forall|i: int|
            0 <= i < ps.len() ==> #[trigger] mapped_predicates(ps, fields, mode)[i]
                == mapped_predicate(ps[i], fields, mode),
    decreases ps.len(),
{
    if ps.len() > 0 {
        let init = ps.drop_last();
        lemma_mapped_predicates(init, fields, mode);
        assert forall|i: int| 0 <= i < ps.len() implies #[trigger] mapped_predicates(
            ps,
            fields,
            mode,
        )[i] == mapped_predicate(ps[i], fields, mode) by {
            if i < init.len() {
                assert(mapped_predicates(init, fields, mode)[i] == mapped_predicate(
                    init[i],
                    fields,
                    mode,
                ));
            }
        }
    }
}

/// Naming columns as files name them does not change the value of an expression.
proof fn lemma_mapped_value<V>(
    e: ExpressionModel,
    fields: Seq<FieldModel>,
    mode: ColumnMappingMode,
    logical: Row<V>,
    physical: Row<V>,
)
    requires
        same_operations(logical, physical),
        are_found(expression_references(e), fields, mode, logical, physical),
    ensures
        value(mapped_expression(e, fields, mode), physical) == value(e, logical),
    decreases e,
{
    match e {
        ExpressionModel::Literal(_) => {},
        ExpressionModel::Column(c) => {
            assert(expression_references(e).contains(c));
            assert((physical.column)(mapped_path(c, fields, mode)) == (logical.column)(c));
        },
        ExpressionModel::Predicate(p) => {
            lemma_mapped_truth(*p, fields, mode, logical, physical);
        },
        ExpressionModel::Struct(es, nullability) => {
            lemma_mapped_values(es, fields, mode, logical, physical);
            if let Some(n) = nullability {
                lemma_mapped_value(*n, fields, mode, logical, physical);
            }
        },
        ExpressionModel::StructPatch { prepended_fields, field_patches, appended_fields } => {
            lemma_mapped_values(prepended_fields, fields, mode, logical, physical);
            lemma_mapped_insertions(field_patches, fields, mode, logical, physical);
            lemma_mapped_values(appended_fields, fields, mode, logical, physical);
        },
        ExpressionModel::Unary(_, x) => {
            lemma_mapped_value(*x, fields, mode, logical, physical);
        },
        ExpressionModel::Binary(_, l, r) => {
            lemma_mapped_value(*l, fields, mode, logical, physical);
            lemma_mapped_value(*r, fields, mode, logical, physical);
        },
        ExpressionModel::Variadic(_, es) => {
            lemma_mapped_values(es, fields, mode, logical, physical);
        },
        ExpressionModel::Opaque(_, es) => {
            lemma_mapped_values(es, fields, mode, logical, physical);
        },
        ExpressionModel::Unknown(_) => {},
        ExpressionModel::ParseJson(x, _) => {
            lemma_mapped_value(*x, fields, mode, logical, physical);
        },
        ExpressionModel::MapToStruct(x) => {
            lemma_mapped_value(*x, fields, mode, logical, physical);
        },
    }
}

proof fn lemma_mapped_values<V>(
    es: Seq<ExpressionModel>,
    fields: Seq<FieldModel>,
    mode: ColumnMappingMode,
    logical: Row<V>,
    physical: Row<V>,
)
    requires
        same_operations(logical, physical),
        are_found(expressions_references(es), fields, mode, logical, physical),
    ensures
        values(mapped_expressions(es, fields, mode), physical) == values(es, logical),
    decreases es,
{
    if es.len() > 0 {
        lemma_mapped_values(es.drop_last(), fields, mode, logical, physical);
        lemma_mapped_value(es.last(), fields, mode, logical, physical);
        let mapped = mapped_expressions(es, fields, mode);
        assert(mapped.drop_last() =~= mapped_expressions(es.drop_last(), fields, mode));
    }
}

proof fn lemma_mapped_insertions<V>(
    ps: Seq<FieldPatchModel>,
    fields: Seq<FieldModel>,
    mode: ColumnMappingMode,
    logical: Row<V>,
    physical: Row<V>,
)
    requires
        same_operations(logical, physical),
        are_found(field_patches_references(ps), fields, mode, logical, physical),
    ensures
        insertions(mapped_field_patches(ps, fields, mode), physical) == insertions(ps, logical),
    decreases ps,
{
    if ps.len() > 0 {
        let p = ps.last();
        let mapped = mapped_field_patches(ps, fields, mode);
        assert(field_patch_references(p) == expressions_references(p.insertions));
        lemma_mapped_insertions(ps.drop_last(), fields, mode, logical, physical);
        lemma_mapped_values(p.insertions, fields, mode, logical, physical);
        assert(mapped.drop_last() =~= mapped_field_patches(ps.drop_last(), fields, mode));
        assert(insertion(mapped_field_patch(p, fields, mode), physical) == insertion(p, logical));
    }
}

/// A predicate that no row can meet is not met by any row: where the files of a table are skipped
/// altogether, the scan hands out nothing that the predicate lets through.
pub proof fn law_static_skip_loses_no_row<V>(
    p: PredicateModel,
    fields: Seq<FieldModel>,
    mode: ColumnMappingMode,
    row: Row<V>,
)
    requires
        usual_literals(row),
        physical_predicate(p, fields, mode) == Ok::<PhysicalPredicateModel, ErrorModel>(
            PhysicalPredicateModel::StaticSkipAll,
        ),
    ensures
        holds(p, row) == Some(false),
{
    law_static_truth_holds_of_every_row(p, row);
}

/// Whether no two fields beside each other have the same name in files, at any depth.
pub open spec fn has_distinct_names(fields: Seq<FieldModel>, mode: ColumnMappingMode) -> bool
    decreases fields,
{
    &&& forall|i: int, j: int|
        0 <= i < fields.len() && 0 <= j < fields.len() && physical_name(
            #[trigger] fields[i],
            mode,
        ) == physical_name(#[trigger] fields[j], mode) && physical_name(fields[i], mode) is Some
            ==> i == j
    &&& forall|i: int|
        0 <= i < fields.len() ==> match (#[trigger] fields[i]).data_type {
            DataTypeModel::Struct(inner) => has_distinct_names(inner, mode),
            _ => true,
        }
}

/// Every field that is kept comes of one of the fields, and every field is kept or dropped without
/// failure.
proof fn lemma_referenced_fields(
    fields: Seq<FieldModel>,
    wanted: Set<Path>,
    prefix: Path,
    mode: ColumnMappingMode,
)
    requires
        referenced_fields(fields, wanted, prefix, mode) is Ok,
    ensures
        forall|k: int|
            0 <= k < referenced_fields(fields, wanted, prefix, mode)->Ok_0.len() ==> exists|i: int|
                0 <= i < fields.len() && referenced_field(
                    #[trigger] fields[i],
                    wanted,
                    prefix,
                    mode,
                ) == Ok::<Option<FieldModel>, ErrorModel>(
                    Some(#[trigger] referenced_fields(fields, wanted, prefix, mode)->Ok_0[k]),
                ),
        forall|i: int|
            0 <= i < fields.len() ==> match referenced_field(
                #[trigger] fields[i],
                wanted,
                prefix,
                mode,
            ) {
                Ok(Some(g)) => referenced_fields(fields, wanted, prefix, mode)->Ok_0.contains(g),
                Ok(None) => true,
                Err(_) => false,
            },
    decreases fields.len(),
{
    if fields.len() > 0 {
        let init = fields.drop_last();
        lemma_referenced_fields(init, wanted, prefix, mode);
        let before = referenced_fields(init, wanted, prefix, mode)->Ok_0;
        let after = referenced_fields(fields, wanted, prefix, mode)->Ok_0;
        let last = referenced_field(fields.last(), wanted, prefix, mode);
        assert forall|k: int| 0 <= k < after.len() implies exists|i: int|
            0 <= i < fields.len() && referenced_field(#[trigger] fields[i], wanted, prefix, mode)
                == Ok::<Option<FieldModel>, ErrorModel>(Some(#[trigger] after[k])) by {
            if k < before.len() {
                assert(after[k] == before[k]);
                let i = choose|i: int|
                    0 <= i < init.len() && referenced_field(
                        #[trigger] init[i],
                        wanted,
                        prefix,
                        mode,
                    ) == Ok::<Option<FieldModel>, ErrorModel>(Some(before[k]));
                assert(fields[i] == init[i]);
            } else {
                assert(fields[fields.len() - 1] == fields.last());
            }
        }
        assert forall|i: int| 0 <= i < fields.len() implies match referenced_field(
            #[trigger] fields[i],
            wanted,
            prefix,
            mode,
        ) {
            Ok(Some(g)) => after.contains(g),
            Ok(None) => true,
            Err(_) => false,
        } by {
            if i < init.len() {
                assert(fields[i] == init[i]);
                if let Ok(Some(g)) = referenced_field(init[i], wanted, prefix, mode) {
                    let k = choose|k: int| 0 <= k < before.len() && before[k] == g;
                    assert(after[k] == g);
                }
            } else if let Ok(Some(g)) = last {
                assert(after[after.len() - 1] == g);
            }
        }
    }
}

/// A column that is wanted is found among what is kept, under its physical path.
proof fn lemma_wanted_column_is_kept(
    fields: Seq<FieldModel>,
    wanted: Set<Path>,
    prefix: Path,
    mode: ColumnMappingMode,
    path: Path,
)
    requires
        referenced_fields(fields, wanted, prefix, mode) is Ok,
        has_distinct_names(fields, mode),
        is_primitive_column(fields, path),
        wanted.contains(prefix + path),
    ensures
        physical_path(fields, path, mode) is Some,
        is_primitive_column(
            referenced_fields(fields, wanted, prefix, mode)->Ok_0,
            physical_path(fields, path, mode)->0,
        ),
    decreases path.len(),
{
    reveal_with_fuel(referenced_field, 2);
    lemma_referenced_fields(fields, wanted, prefix, mode);
    lemma_field_position(fields, path[0]);
    let kept = referenced_fields(fields, wanted, prefix, mode)->Ok_0;
    let i = field_position(fields, path[0])->0;
    let f = fields[i];
    let inside = prefix.push(f.name);
    let rest = path.drop_first();
    if path.len() == 1 {
        assert(prefix + path =~= inside);
    } else {
        assert(prefix + path =~= inside + rest);
        let inner = f.data_type->Struct_0;
        assert(referenced_fields(inner, wanted, inside, mode) is Ok);
        lemma_wanted_column_is_kept(inner, wanted, inside, mode, rest);
    }
    let g = referenced_field(f, wanted, prefix, mode)->Ok_0->0;
    assert(referenced_field(f, wanted, prefix, mode) == Ok::<Option<FieldModel>, ErrorModel>(
        Some(g),
    ));
    assert(kept.contains(g));
    lemma_field_position(kept, g.name);
    let k = choose|k: int| 0 <= k < kept.len() && kept[k] == g;
    assert(kept[k].name == g.name);
    assert(has_field(kept, g.name));
    let found = field_position(kept, g.name)->0;
    let j = choose|j: int|
        0 <= j < fields.len() && referenced_field(#[trigger] fields[j], wanted, prefix, mode)
            == Ok::<Option<FieldModel>, ErrorModel>(Some(kept[found]));
    assert(physical_name(fields[j], mode) == Some(g.name));
    assert(physical_name(fields[i], mode) == Some(g.name));
    assert(j == i);
    assert(kept[found] == g);
    let named = physical_path(fields, path, mode)->0;
    if path.len() == 1 {
        assert(named =~= seq![g.name]);
    } else {
        let tail = physical_path(f.data_type->Struct_0, rest, mode)->0;
        assert(named == seq![g.name] + tail);
        assert(named.drop_first() =~= tail);
        assert(tail.len() > 0);
    }
}

/// A predicate on files can be evaluated on the columns that come with it: where a predicate mentions
/// a column, files hold that column under the name that the predicate on files gives it, and it is
/// one of those columns. Names have to be distinct.
pub proof fn law_mentioned_columns_are_kept(
    p: PredicateModel,
    fields: Seq<FieldModel>,
    mode: ColumnMappingMode,
    column: Path,
)
    requires
        has_distinct_names(fields, mode),
        predicate_references(p).contains(column),
    ensures
        physical_predicate(p, fields, mode) matches Ok(PhysicalPredicateModel::Present(_, kept))
            ==> {
            &&& physical_path(fields, column, mode) == Some(mapped_path(column, fields, mode))
            &&& is_primitive_column(kept, mapped_path(column, fields, mode))
        },
{
    if let Ok(PhysicalPredicateModel::Present(_, kept)) = physical_predicate(p, fields, mode) {
        let mentioned = predicate_references(p);
        assert(mentioned.contains(column) ==> is_primitive_column(fields, column));
        assert(Seq::<Seq<char>>::empty() + column =~= column);
        lemma_wanted_column_is_kept(fields, mentioned, Seq::empty(), mode, column);
    }
}

/// What is kept has a physical path.
proof fn lemma_kept_column_is_held(
    fields: Seq<FieldModel>,
    wanted: Set<Path>,
    prefix: Path,
    mode: ColumnMappingMode,
    path: Path,
)
    requires
        referenced_fields(fields, wanted, prefix, mode) is Ok,
        is_primitive_column(fields, path),
        wanted.contains(prefix + path),
    ensures
        physical_path(fields, path, mode) is Some,
        referenced_fields(fields, wanted, prefix, mode)->Ok_0.len() > 0,
    decreases path.len(),
{
    reveal_with_fuel(referenced_field, 2);
    lemma_referenced_fields(fields, wanted, prefix, mode);
    lemma_field_position(fields, path[0]);
    let i = field_position(fields, path[0])->0;
    let f = fields[i];
    let inside = prefix.push(f.name);
    if path.len() == 1 {
        assert(prefix + path =~= inside);
    } else {
        let inner = f.data_type->Struct_0;
        assert(prefix + path =~= inside + path.drop_first());
        assert(referenced_fields(inner, wanted, inside, mode) is Ok);
        lemma_kept_column_is_held(inner, wanted, inside, mode, path.drop_first());
    }
    assert(referenced_field(f, wanted, prefix, mode) matches Ok(Some(_)));
}

/// A predicate on files says of a row as files hold it what the predicate of the scan says of the
/// row: it is true, false or null of the one exactly where the other is of the other.
pub proof fn law_physical_predicate_means_the_same<V>(
    p: PredicateModel,
    fields: Seq<FieldModel>,
    mode: ColumnMappingMode,
    logical: Row<V>,
    physical: Row<V>,
)
    requires
        is_held_as(logical, physical, fields, mode),
    ensures
        physical_predicate(p, fields, mode) matches Ok(PhysicalPredicateModel::Present(q, _))
            ==> holds(q, physical) == holds(p, logical),
{
    if physical_predicate(p, fields, mode) matches Ok(PhysicalPredicateModel::Present(_, _)) {
        let mentioned = predicate_references(p);
        assert forall|c: Path| mentioned.contains(c) implies (physical.column)(
            #[trigger] mapped_path(c, fields, mode),
        ) == (logical.column)(c) by {
            assert(mentioned.contains(c) ==> is_primitive_column(fields, c));
            assert(Seq::<Seq<char>>::empty() + c =~= c);
            lemma_kept_column_is_held(fields, mentioned, Seq::empty(), mode, c);
            assert(physical_path(fields, c, mode) is Some);
        }
        lemma_mapped_truth(p, fields, mode, logical, physical);
    }
}

/// Which kind of predicate on files there is: one that mentions a column is there to skip files,
/// unless its literals alone decide that no row can match. One that mentions none is not.
pub proof fn law_predicate_is_used_where_it_mentions_columns(
    p: PredicateModel,
    fields: Seq<FieldModel>,
    mode: ColumnMappingMode,
)
    ensures
        physical_predicate(p, fields, mode) matches Ok(physical) ==> {
            &&& physical is StaticSkipAll <==> static_truth(p) == Some(false)
            &&& physical is Absent ==> forall|c: Path| !predicate_references(p).contains(c)
            &&& physical is Present ==> exists|c: Path| predicate_references(p).contains(c)
        },
{
    if static_truth(p) != Some(false) {
        let mentioned = predicate_references(p);
        if let Ok(kept) = referenced_fields(fields, mentioned, Seq::empty(), mode) {
            if physical_predicate(p, fields, mode) is Ok {
                assert forall|c: Path| mentioned.contains(c) implies kept.len() > 0 by {
                    assert(mentioned.contains(c) ==> is_primitive_column(fields, c));
                    assert(Seq::<Seq<char>>::empty() + c =~= c);
                    lemma_kept_column_is_held(fields, mentioned, Seq::empty(), mode, c);
                }
                if kept.len() > 0 {
                    let c = lemma_kept_comes_of_wanted(fields, mentioned, Seq::empty(), mode);
                    assert(mentioned.contains(c));
                }
            }
        }
    }
}

proof fn lemma_kept_comes_of_wanted(
    fields: Seq<FieldModel>,
    wanted: Set<Path>,
    prefix: Path,
    mode: ColumnMappingMode,
) -> (c: Path)
    requires
        referenced_fields(fields, wanted, prefix, mode) matches Ok(kept) && kept.len() > 0,
    ensures
        wanted.contains(c),
    decreases fields,
{
    let kept = referenced_fields(fields, wanted, prefix, mode)->Ok_0;
    let init = fields.drop_last();
    let f = fields.last();
    let path = prefix.push(f.name);
    if referenced_fields(init, wanted, prefix, mode)->Ok_0.len() > 0 {
        lemma_kept_comes_of_wanted(init, wanted, prefix, mode)
    } else {
        assert(referenced_field(f, wanted, prefix, mode) matches Ok(Some(_)));
        match f.data_type {
            DataTypeModel::Struct(inner) => lemma_kept_comes_of_wanted(inner, wanted, path, mode),
            _ => path,
        }
    }
}

/// The columns that come with a predicate on files are those that the predicate of the scan
/// mentions, and no other: each has the name that files give it, and is otherwise as the schema has
/// it.
pub proof fn law_kept_columns_are_the_mentioned_ones(
    p: PredicateModel,
    fields: Seq<FieldModel>,
    mode: ColumnMappingMode,
    held: Path,
    leaf: FieldModel,
)
    requires
        leaf.data_type is Primitive,
    ensures
        physical_predicate(p, fields, mode) matches Ok(PhysicalPredicateModel::Present(_, kept))
            ==> (has_leaf(kept, held, leaf) <==> exists|c: Path, f: FieldModel|
            predicate_references(p).contains(c) && #[trigger] has_held_leaf(
                fields,
                c,
                held,
                f,
                mode,
            ) && leaf == (FieldModel { name: held.last(), ..f })),
{
    if let Ok(PhysicalPredicateModel::Present(_, kept)) = physical_predicate(p, fields, mode) {
        let mentioned = predicate_references(p);
        let root: Path = Seq::empty();
        if has_leaf(kept, held, leaf) {
            let (c, f) = lemma_kept_leaf_comes_of_wanted(fields, mentioned, root, mode, held, leaf);
            assert(root + c =~= c);
        }
        if exists|c: Path, f: FieldModel|
            mentioned.contains(c) && #[trigger] has_held_leaf(fields, c, held, f, mode) && leaf == (
            FieldModel { name: held.last(), ..f }) {
            let (c, f) = choose|c: Path, f: FieldModel|
                mentioned.contains(c) && #[trigger] has_held_leaf(fields, c, held, f, mode)
                    && leaf == (FieldModel { name: held.last(), ..f });
            assert(root + c =~= c);
            lemma_wanted_leaf_is_kept(fields, mentioned, root, mode, c, held, f);
        }
    }
}

proof fn lemma_kept_leaf_comes_of_wanted(
    fields: Seq<FieldModel>,
    wanted: Set<Path>,
    prefix: Path,
    mode: ColumnMappingMode,
    held: Path,
    leaf: FieldModel,
) -> (r: (Path, FieldModel))
    requires
        referenced_fields(fields, wanted, prefix, mode) matches Ok(kept) && has_leaf(
            kept,
            held,
            leaf,
        ),
        leaf.data_type is Primitive,
    ensures
        wanted.contains(prefix + r.0),
        has_held_leaf(fields, r.0, held, r.1, mode),
        leaf == (FieldModel { name: held.last(), ..r.1 }),
    decreases held.len(),
{
    reveal_with_fuel(referenced_field, 2);
    lemma_referenced_fields(fields, wanted, prefix, mode);
    let kept = referenced_fields(fields, wanted, prefix, mode)->Ok_0;
    let k = choose|k: int|
        0 <= k < kept.len() && (#[trigger] kept[k]).name == held[0] && if held.len() == 1 {
            kept[k] == leaf
        } else {
            match kept[k].data_type {
                DataTypeModel::Struct(inner) => has_leaf(inner, held.drop_first(), leaf),
                _ => false,
            }
        };
    let i = choose|i: int|
        0 <= i < fields.len() && referenced_field(#[trigger] fields[i], wanted, prefix, mode)
            == Ok::<Option<FieldModel>, ErrorModel>(Some(kept[k]));
    let f = fields[i];
    let inside = prefix.push(f.name);
    if held.len() == 1 {
        assert(prefix + seq![f.name] =~= inside);
        assert(has_held_leaf(fields, seq![f.name], held, f, mode));
        (seq![f.name], f)
    } else {
        let inner = f.data_type->Struct_0;
        let (c, g) = lemma_kept_leaf_comes_of_wanted(
            inner,
            wanted,
            inside,
            mode,
            held.drop_first(),
            leaf,
        );
        let path = seq![f.name] + c;
        assert(path.drop_first() =~= c);
        assert(prefix + path =~= inside + c);
        assert(has_held_leaf(fields, path, held, g, mode));
        assert(held.drop_first().last() == held.last());
        (path, g)
    }
}

proof fn lemma_wanted_leaf_is_kept(
    fields: Seq<FieldModel>,
    wanted: Set<Path>,
    prefix: Path,
    mode: ColumnMappingMode,
    path: Path,
    held: Path,
    f: FieldModel,
)
    requires
        referenced_fields(fields, wanted, prefix, mode) is Ok,
        wanted.contains(prefix + path),
        has_held_leaf(fields, path, held, f, mode),
        f.data_type is Primitive,
    ensures
        has_leaf(
            referenced_fields(fields, wanted, prefix, mode)->Ok_0,
            held,
            (FieldModel { name: held.last(), ..f }),
        ),
    decreases path.len(),
{
    reveal_with_fuel(referenced_field, 2);
    lemma_referenced_fields(fields, wanted, prefix, mode);
    let kept = referenced_fields(fields, wanted, prefix, mode)->Ok_0;
    let leaf = FieldModel { name: held.last(), ..f };
    let i = choose|i: int|
        0 <= i < fields.len() && (#[trigger] fields[i]).name == path[0] && physical_name(
            fields[i],
            mode,
        ) == Some(held[0]) && if path.len() == 1 {
            fields[i] == f
        } else {
            match fields[i].data_type {
                DataTypeModel::Struct(inner) => has_held_leaf(
                    inner,
                    path.drop_first(),
                    held.drop_first(),
                    f,
                    mode,
                ),
                _ => false,
            }
        };
    let g = fields[i];
    let inside = prefix.push(g.name);
    if path.len() == 1 {
        assert(prefix + path =~= inside);
        assert(referenced_field(g, wanted, prefix, mode) == Ok::<Option<FieldModel>, ErrorModel>(
            Some(leaf),
        ));
        let k = choose|k: int| 0 <= k < kept.len() && kept[k] == leaf;
        assert(kept[k].name == held[0]);
    } else {
        let inner = g.data_type->Struct_0;
        assert(prefix + path =~= inside + path.drop_first());
        assert(referenced_field(g, wanted, prefix, mode) is Ok);
        lemma_wanted_leaf_is_kept(
            inner,
            wanted,
            inside,
            mode,
            path.drop_first(),
            held.drop_first(),
            f,
        );
        assert(held.drop_first().last() == held.last());
        let inner_kept = referenced_fields(inner, wanted, inside, mode)->Ok_0;
        assert(has_leaf(inner_kept, held.drop_first(), leaf));
        assert(inner_kept.len() > 0);
        let h = FieldModel { name: held[0], data_type: DataTypeModel::Struct(inner_kept), ..g };
        assert(referenced_field(g, wanted, prefix, mode) == Ok::<Option<FieldModel>, ErrorModel>(
            Some(h),
        ));
        let k = choose|k: int| 0 <= k < kept.len() && kept[k] == h;
        assert(kept[k].name == held[0]);
    }
}

/// Where names are not mapped, the predicate on files is the predicate of the scan. It is refused
/// exactly where it mentions something that is not a column of a primitive type, unless its literals
/// alone decide that no row can match.
pub proof fn law_unmapped_predicate_is_unchanged(p: PredicateModel, fields: Seq<FieldModel>)
    ensures
        physical_predicate(p, fields, ColumnMappingMode::NoMapping) matches Ok(
            PhysicalPredicateModel::Present(q, _),
        ) ==> q == p,
        physical_predicate(p, fields, ColumnMappingMode::NoMapping) is Err <==> static_truth(p)
            != Some(false) && exists|c: Path| #[trigger]
            predicate_references(p).contains(c) && !is_primitive_column(fields, c),
{
    lemma_unmapped_predicate(p, fields);
    lemma_unmapped_fields_do_not_fail(fields, predicate_references(p), Seq::empty());
}

proof fn lemma_unmapped_fields_do_not_fail(fields: Seq<FieldModel>, wanted: Set<Path>, prefix: Path)
    ensures
        referenced_fields(fields, wanted, prefix, ColumnMappingMode::NoMapping) is Ok,
    decreases fields,
{
    reveal_with_fuel(referenced_fields, 2);
    reveal_with_fuel(referenced_field, 2);
    if fields.len() > 0 {
        let f = fields.last();
        lemma_unmapped_fields_do_not_fail(fields.drop_last(), wanted, prefix);
        if let DataTypeModel::Struct(inner) = f.data_type {
            lemma_unmapped_fields_do_not_fail(inner, wanted, prefix.push(f.name));
        }
    }
}

proof fn lemma_unmapped_expression(e: ExpressionModel, fields: Seq<FieldModel>)
    ensures
        mapped_expression(e, fields, ColumnMappingMode::NoMapping) == e,
    decreases e,
{
    match e {
        ExpressionModel::Literal(_) => {},
        ExpressionModel::Column(c) => {
            law_unmapped_path_is_unchanged(fields, c);
        },
        ExpressionModel::Predicate(p) => {
            lemma_unmapped_predicate(*p, fields);
        },
        ExpressionModel::Struct(es, nullability) => {
            lemma_unmapped_expressions(es, fields);
            if let Some(n) = nullability {
                lemma_unmapped_expression(*n, fields);
            }
        },
        ExpressionModel::StructPatch { prepended_fields, field_patches, appended_fields } => {
            lemma_unmapped_expressions(prepended_fields, fields);
            lemma_unmapped_field_patches(field_patches, fields);
            lemma_unmapped_expressions(appended_fields, fields);
        },
        ExpressionModel::Unary(_, x) => {
            lemma_unmapped_expression(*x, fields);
        },
        ExpressionModel::Binary(_, l, r) => {
            lemma_unmapped_expression(*l, fields);
            lemma_unmapped_expression(*r, fields);
        },
        ExpressionModel::Variadic(_, es) => {
            lemma_unmapped_expressions(es, fields);
        },
        ExpressionModel::Opaque(_, es) => {
            lemma_unmapped_expressions(es, fields);
        },
        ExpressionModel::Unknown(_) => {},
        ExpressionModel::ParseJson(x, _) => {
            lemma_unmapped_expression(*x, fields);
        },
        ExpressionModel::MapToStruct(x) => {
            lemma_unmapped_expression(*x, fields);
        },
    }
}

proof fn lemma_unmapped_expressions(es: Seq<ExpressionModel>, fields: Seq<FieldModel>)
    ensures
        mapped_expressions(es, fields, ColumnMappingMode::NoMapping) == es,
    decreases es,
{
    if es.len() > 0 {
        lemma_unmapped_expressions(es.drop_last(), fields);
        lemma_unmapped_expression(es.last(), fields);
        assert(es =~= es.drop_last().push(es.last()));
    } else {
        assert(es =~= Seq::empty());
    }
}

proof fn lemma_unmapped_field_patches(ps: Seq<FieldPatchModel>, fields: Seq<FieldModel>)
    ensures
        mapped_field_patches(ps, fields, ColumnMappingMode::NoMapping) == ps,
    decreases ps,
{
    if ps.len() > 0 {
        let p = ps.last();
        lemma_unmapped_field_patches(ps.drop_last(), fields);
        lemma_unmapped_expressions(p.insertions, fields);
        assert(mapped_field_patch(p, fields, ColumnMappingMode::NoMapping) == p);
        assert(ps =~= ps.drop_last().push(p));
    } else {
        assert(ps =~= Seq::empty());
    }
}

proof fn lemma_unmapped_predicate(p: PredicateModel, fields: Seq<FieldModel>)
    ensures
        mapped_predicate(p, fields, ColumnMappingMode::NoMapping) == p,
    decreases p,
{
    match p {
        PredicateModel::BooleanExpression(e) => {
            lemma_unmapped_expression(e, fields);
        },
        PredicateModel::Not(q) => {
            lemma_unmapped_predicate(*q, fields);
        },
        PredicateModel::Unary(_, e) => {
            lemma_unmapped_expression(e, fields);
        },
        PredicateModel::Binary(_, l, r) => {
            lemma_unmapped_expression(l, fields);
            lemma_unmapped_expression(r, fields);
        },
        PredicateModel::Junction(_, ps) => {
            lemma_unmapped_predicates(ps, fields);
        },
        PredicateModel::Opaque(_, es) => {
            lemma_unmapped_expressions(es, fields);
        },
        PredicateModel::Unknown(_) => {},
    }
}

proof fn lemma_unmapped_predicates(ps: Seq<PredicateModel>, fields: Seq<FieldModel>)
    ensures
        mapped_predicates(ps, fields, ColumnMappingMode::NoMapping) == ps,
    decreases ps,
{
    if ps.len() > 0 {
        lemma_unmapped_predicates(ps.drop_last(), fields);
        lemma_unmapped_predicate(ps.last(), fields);
        assert(ps =~= ps.drop_last().push(ps.last()));
    } else {
        assert(ps =~= Seq::empty());
    }
}

/// Whether a predicate is made of nothing but booleans, tests of literals for null, and comparisons
/// of integers, dates or times of one kind.
pub open spec fn is_constant(p: PredicateModel) -> bool
    decreases p,
{
    match p {
        PredicateModel::BooleanExpression(e) => match e {
            ExpressionModel::Literal(s) => s is Boolean,
            ExpressionModel::Predicate(q) => is_constant(*q),
            _ => false,
        },
        PredicateModel::Not(q) => is_constant(*q),
        PredicateModel::Unary(op, e) => op == UnaryPredicateOp::IsNull && e is Literal,
        PredicateModel::Binary(op, l, r) => op != BinaryPredicateOp::In && match (l, r) {
            (ExpressionModel::Literal(l), ExpressionModel::Literal(r)) => match (l, r) {
                (ScalarModel::Byte(_), ScalarModel::Byte(_)) => true,
                (ScalarModel::Short(_), ScalarModel::Short(_)) => true,
                (ScalarModel::Integer(_), ScalarModel::Integer(_)) => true,
                (ScalarModel::Long(_), ScalarModel::Long(_)) => true,
                (ScalarModel::Date(_), ScalarModel::Date(_)) => true,
                (ScalarModel::Timestamp(_), ScalarModel::Timestamp(_)) => true,
                (ScalarModel::TimestampNtz(_), ScalarModel::TimestampNtz(_)) => true,
                _ => false,
            },
            _ => false,
        },
        PredicateModel::Junction(_, ps) => forall|i: int|
            0 <= i < ps.len() ==> is_constant(#[trigger] ps[i]),
        _ => false,
    }
}

/// Literals decide a predicate that is made of nothing else, and one arm that they make false decides
/// a conjunction, as one that they make true decides a disjunction.
pub proof fn law_literals_decide(p: PredicateModel, i: int)
    ensures
        is_constant(p) ==> static_truth(p) is Some,
        p matches PredicateModel::Junction(JunctionPredicateOp::And, ps) ==> (0 <= i < ps.len()
            && static_truth(ps[i]) == Some(false) ==> static_truth(p) == Some(false)),
        p matches PredicateModel::Junction(JunctionPredicateOp::Or, ps) ==> (0 <= i < ps.len()
            && static_truth(ps[i]) == Some(true) ==> static_truth(p) == Some(true)),
        p matches PredicateModel::Not(q) ==> (static_truth(p) == Some(false) <==> static_truth(*q)
            == Some(true)) && (static_truth(p) == Some(true) <==> static_truth(*q) == Some(false)),
    decreases p,
{
    match p {
        PredicateModel::BooleanExpression(e) => {
            if let ExpressionModel::Predicate(q) = e {
                law_literals_decide(*q, 0);
            }
        },
        PredicateModel::Not(q) => {
            law_literals_decide(*q, 0);
        },
        PredicateModel::Junction(op, ps) => {
            lemma_static_truths(ps);
            let known = static_truths(ps);
            if 0 <= i < ps.len() {
                assert(known[i] == static_truth(ps[i]));
            }
            if is_constant(p) {
                assert(!known.contains(None::<bool>)) by {
                    if known.contains(None::<bool>) {
                        let k = choose|k: int| 0 <= k < known.len() && known[k] == None::<bool>;
                        law_literals_decide(ps[k], 0);
                        assert(is_constant(ps[k]));
                    }
                }
            }
        },
        _ => {},
    }
}

/// What the comparison of two whole numbers says statically is what it says of the numbers, and so of
/// dates and times. Values of different kinds are not compared.
pub proof fn law_static_comparison_compares(a: i64, b: i64, op: BinaryPredicateOp)
    ensures
        ({
            let expected = match op {
                BinaryPredicateOp::LessThan => Some(a < b),
                BinaryPredicateOp::GreaterThan => Some(b < a),
                BinaryPredicateOp::Equal => Some(a == b),
                BinaryPredicateOp::Distinct => Some(a != b),
                BinaryPredicateOp::In => None,
            };
            &&& static_comparison(op, ScalarModel::Long(a), ScalarModel::Long(b)) == expected
            &&& static_comparison(op, ScalarModel::Timestamp(a), ScalarModel::Timestamp(b))
                == expected
            &&& static_comparison(op, ScalarModel::TimestampNtz(a), ScalarModel::TimestampNtz(b))
                == expected
            &&& static_comparison(op, ScalarModel::Long(a), ScalarModel::Timestamp(b)) is None
            &&& static_comparison(op, ScalarModel::Timestamp(a), ScalarModel::TimestampNtz(b)) is None
            &&& i32::MIN <= a <= i32::MAX && i32::MIN <= b <= i32::MAX ==> {
                &&& static_comparison(
                    op,
                    ScalarModel::Integer(a as i32),
                    ScalarModel::Integer(b as i32),
                ) == expected
                &&& static_comparison(op, ScalarModel::Date(a as i32), ScalarModel::Date(b as i32))
                    == expected
                &&& static_comparison(op, ScalarModel::Integer(a as i32), ScalarModel::Long(b)) is None
            }
            &&& i16::MIN <= a <= i16::MAX && i16::MIN <= b <= i16::MAX ==> static_comparison(
                op,
                ScalarModel::Short(a as i16),
                ScalarModel::Short(b as i16),
            ) == expected
            &&& i8::MIN <= a <= i8::MAX && i8::MIN <= b <= i8::MAX ==> static_comparison(
                op,
                ScalarModel::Byte(a as i8),
                ScalarModel::Byte(b as i8),
            ) == expected
        }),
{
}

/// The columns that come with a predicate on files stand in the order of the schema, at most one for
/// each of its fields, under the name that files give it.
pub proof fn law_kept_columns_stand_in_the_order_of_the_schema(
    fields: Seq<FieldModel>,
    wanted: Set<Path>,
    prefix: Path,
    mode: ColumnMappingMode,
) -> (positions: Seq<int>)
    ensures
        referenced_fields(fields, wanted, prefix, mode) matches Ok(kept) ==> {
            &&& positions.len() == kept.len()
            &&& forall|k: int|
                0 <= k < kept.len() ==> 0 <= #[trigger] positions[k] < fields.len()
                    && physical_name(fields[positions[k]], mode) == Some(kept[k].name)
            &&& forall|k: int, l: int|
                0 <= k < l < positions.len() ==> #[trigger] positions[k] < #[trigger] positions[l]
        },
    decreases fields.len(),
{
    reveal_with_fuel(referenced_field, 2);
    if fields.len() == 0 || referenced_fields(fields, wanted, prefix, mode) is Err {
        Seq::empty()
    } else {
        let init = fields.drop_last();
        let before = law_kept_columns_stand_in_the_order_of_the_schema(init, wanted, prefix, mode);
        let kept = referenced_fields(fields, wanted, prefix, mode)->Ok_0;
        let positions = if referenced_field(fields.last(), wanted, prefix, mode) matches Ok(
            Some(_),
        ) {
            before.push(init.len() as int)
        } else {
            before
        };
        assert forall|k: int| 0 <= k < kept.len() implies 0 <= #[trigger] positions[k] < fields.len()
            && physical_name(fields[positions[k]], mode) == Some(kept[k].name) by {
            if k < before.len() {
                assert(positions[k] == before[k]);
                assert(init[before[k]] == fields[before[k]]);
            }
        }
        positions
    }
}

} // verus!
