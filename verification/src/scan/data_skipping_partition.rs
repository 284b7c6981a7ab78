//! Predicates that skip rows of a checkpoint by the partition values of the files they describe.
//!
//! A checkpoint row that adds a file carries the file's partition values in the struct
//! `partitionValues_parsed`. A predicate on the table's columns is turned into one on that struct
//! that every row keeps whose file may hold a matching row.
use vstd::prelude::*;

use crate::expressions::{
    expression_references, lemma_predicates_model, lemma_predicates_model_push,
    lemma_predicates_references, paths, predicate_references, predicates_model,
    predicates_references, BinaryPredicateOp, ColumnName, Expression, ExpressionModel,
    JunctionPredicateOp, Path, Predicate, PredicateModel, UnaryPredicateOp,
};
use crate::semantics::{
    holds, holds_each, junction, lemma_holds_each, negation, same_operations, value, Row, Truth,
};
use crate::text::{contains_text, same_text, texts};

verus! {

/// The struct of a checkpoint row that holds a file's partition values.
pub const PARTITION_VALUES_PARSED: &'static str = "partitionValues_parsed";

/// The column of a checkpoint row that holds a file's path. It is null in rows that add no file.
pub const FILE_PATH: &'static str = "path";

// ---------------------------------------------------------------------------
// The translation
// ---------------------------------------------------------------------------
/// Whether `column` is one of the partition columns `columns`.
pub open spec fn is_partition_path(column: Path, columns: Seq<Seq<char>>) -> bool {
    column.len() == 1 && columns.contains(column[0])
}

/// Where a checkpoint row holds the value of a partition column.
pub open spec fn parsed_path(column: Path) -> Path {
    seq![PARTITION_VALUES_PARSED@] + column
}

/// Whether `column` lies in the struct of partition values.
pub open spec fn is_parsed_path(column: Path) -> bool {
    column.len() > 0 && column[0] == PARTITION_VALUES_PARSED@
}

/// An operand in terms of partition values: a literal, or a partition column.
pub open spec fn translated_operand(e: ExpressionModel, columns: Seq<Seq<char>>) -> Option<
    ExpressionModel,
> {
    match e {
        ExpressionModel::Literal(v) => Some(ExpressionModel::Literal(v)),
        ExpressionModel::Column(c) => if is_partition_path(c, columns) {
            Some(ExpressionModel::Column(parsed_path(c)))
        } else {
            None
        },
        _ => None,
    }
}

/// `p`, or its negation.
pub open spec fn leaf(p: PredicateModel, inverted: bool) -> PredicateModel {
    if inverted {
        PredicateModel::Not(Box::new(p))
    } else {
        p
    }
}

/// Whether an operand is a column of the struct of partition values.
pub open spec fn is_parsed_column(e: ExpressionModel) -> bool {
    match e {
        ExpressionModel::Column(c) => is_parsed_path(c),
        _ => false,
    }
}

/// The arms that have a translation, in order.
pub open spec fn supported_arms(arms: Seq<Option<PredicateModel>>) -> Seq<PredicateModel>
    decreases arms.len(),
{
    if arms.len() == 0 {
        Seq::empty()
    } else {
        match arms.last() {
            Some(p) => supported_arms(arms.drop_last()).push(p),
            None => supported_arms(arms.drop_last()),
        }
    }
}

/// The translation of a junction whose operator, after pushing in the negation, is `op`, and whose
/// arms translate to `arms`. A conjunction leaves out the arms that have no translation, and has
/// none itself where nothing is left. A disjunction has none where an arm has none.
pub open spec fn translated_junction(
    op: JunctionPredicateOp,
    arms: Seq<Option<PredicateModel>>,
) -> Option<PredicateModel> {
    if op == JunctionPredicateOp::And {
        if arms.len() > 0 && supported_arms(arms).len() == 0 {
            None
        } else {
            Some(PredicateModel::Junction(op, supported_arms(arms)))
        }
    } else if arms.contains(None) {
        None
    } else {
        Some(PredicateModel::Junction(op, supported_arms(arms)))
    }
}

/// What `p` (or, `inverted`, its negation) says of the partition values alone, with negations
/// pushed in to the comparisons.
pub open spec fn translation(p: PredicateModel, columns: Seq<Seq<char>>, inverted: bool) -> Option<
    PredicateModel,
>
    decreases p,
{
    match p {
        PredicateModel::BooleanExpression(e) => match e {
            ExpressionModel::Predicate(p) => translation(*p, columns, inverted),
            e => match translated_operand(e, columns) {
                Some(e) => Some(leaf(PredicateModel::BooleanExpression(e), inverted)),
                None => None,
            },
        },
        PredicateModel::Not(p) => translation(*p, columns, !inverted),
        PredicateModel::Unary(op, e) => match translated_operand(e, columns) {
            Some(e) => Some(leaf(PredicateModel::Unary(op, e), inverted)),
            None => None,
        },
        PredicateModel::Binary(op, l, r) => match (
            translated_operand(l, columns),
            translated_operand(r, columns),
        ) {
            (Some(l), Some(r)) => if op == BinaryPredicateOp::In || (is_parsed_column(l)
                && is_parsed_column(r)) {
                None
            } else {
                Some(leaf(PredicateModel::Binary(op, l, r), inverted))
            },
            _ => None,
        },
        PredicateModel::Junction(op, ps) => translated_junction(
            if inverted {
                op.inverse()
            } else {
                op
            },
            translations(ps, columns, inverted),
        ),
        PredicateModel::Opaque(_, _) => None,
        PredicateModel::Unknown(_) => None,
    }
}

/// The translations of the predicates of a list.
pub open spec fn translations(
    ps: Seq<PredicateModel>,
    columns: Seq<Seq<char>>,
    inverted: bool,
) -> Seq<Option<PredicateModel>>
    decreases ps,
{
    if ps.len() == 0 {
        Seq::empty()
    } else {
        translations(ps.drop_last(), columns, inverted).push(
            translation(ps.last(), columns, inverted),
        )
    }
}

/// The predicate that keeps the rows that add no file.
pub open spec fn adds_no_file() -> PredicateModel {
    PredicateModel::Unary(UnaryPredicateOp::IsNull, ExpressionModel::Column(seq![FILE_PATH@]))
}

/// The predicate on checkpoint rows for a predicate `p` on the table. There is none where `p` does
/// not mention a partition column, or says nothing of the partition values alone.
pub open spec fn checkpoint_predicate(p: PredicateModel, columns: Seq<Seq<char>>) -> Option<
    PredicateModel,
> {
    if !(exists|c: Path| #[trigger]
        predicate_references(p).contains(c) && is_partition_path(c, columns)) {
        None
    } else {
        match translation(p, columns, false) {
            Some(t) => if exists|c: Path| #[trigger]
                predicate_references(t).contains(c) && is_parsed_path(c) {
                Some(PredicateModel::Junction(JunctionPredicateOp::Or, seq![adds_no_file(), t]))
            } else {
                None
            },
            None => None,
        }
    }
}

// ---------------------------------------------------------------------------
// Building it
// ---------------------------------------------------------------------------
/// Translates predicates, given the table's partition columns.
pub struct PartitionPredicateBuilder<'a> {
    pub partition_columns: &'a [String],
}

/// The content of an optional predicate.
pub open spec fn predicate_option(p: Option<Predicate>) -> Option<PredicateModel> {
    match p {
        Some(p) => Some(p@),
        None => None,
    }
}

/// The content of an optional expression.
pub open spec fn expression_option(e: Option<Expression>) -> Option<ExpressionModel> {
    match e {
        Some(e) => Some(e@),
        None => None,
    }
}

impl<'a> PartitionPredicateBuilder<'a> {
    /// The partition columns.
    pub open spec fn columns(&self) -> Seq<Seq<char>> {
        texts(self.partition_columns@)
    }

    pub fn is_partition_column(&self, name: &ColumnName) -> (r: bool)
        ensures
            r == is_partition_path(name@, self.columns()),
    {
        let path = name.path();
        path.len() == 1 && contains_text(self.partition_columns, path[0].as_str())
    }

    pub fn partition_expression(&self, name: &ColumnName) -> (r: Expression)
        ensures
            r@ == ExpressionModel::Column(parsed_path(name@)),
    {
        let mut root: Vec<String> = Vec::new();
        root.push(PARTITION_VALUES_PARSED.to_owned());
        let parsed = ColumnName::new(root).join(name);
        assert(parsed@ =~= parsed_path(name@));
        Expression::Column(parsed)
    }

    pub fn finish_leaf(&self, pred: Predicate, inverted: bool) -> (r: Predicate)
        ensures
            r@ == leaf(pred@, inverted),
    {
        if inverted {
            Predicate::not(pred)
        } else {
            pred
        }
    }

    pub fn translate_operand(&self, expr: &Expression) -> (r: Option<Expression>)
        ensures
            expression_option(r) == translated_operand(expr@, self.columns()),
    {
        match expr {
            Expression::Literal(value) => Some(Expression::Literal(value.clone())),
            Expression::Column(name) => if self.is_partition_column(name) {
                Some(self.partition_expression(name))
            } else {
                None
            },
            _ => None,
        }
    }

    pub fn translate_boolean_expression(&self, expr: &Expression, inverted: bool) -> (r: Option<
        Predicate,
    >)
        ensures
            predicate_option(r) == translation(
                PredicateModel::BooleanExpression(expr@),
                self.columns(),
                inverted,
            ),
        decreases expr,
    {
        match expr {
            Expression::Literal(value) => Some(
                self.finish_leaf(Predicate::from_expr(Expression::Literal(value.clone())), inverted),
            ),
            Expression::Column(name) => if self.is_partition_column(name) {
                Some(
                    self.finish_leaf(Predicate::from_expr(self.partition_expression(name)), inverted),
                )
            } else {
                None
            },
            Expression::Predicate(pred) => self.translate_predicate(pred, inverted),
            _ => None,
        }
    }

    pub fn translate_junction(
        &self,
        op: JunctionPredicateOp,
        preds: &Vec<Predicate>,
        inverted: bool,
    ) -> (r: Option<Predicate>)
        ensures
            predicate_option(r) == translation(
                PredicateModel::Junction(op, predicates_model(preds@)),
                self.columns(),
                inverted,
            ),
        decreases preds,
    {
        let effective: JunctionPredicateOp = if inverted {
            op.invert()
        } else {
            op
        };
        let ghost models = predicates_model(preds@);
        let ghost arms = translations(models, self.columns(), inverted);
        let mut translated: Vec<Predicate> = Vec::new();
        let mut i: usize = 0;
        assert(predicates_model(preds@.take(0)) =~= Seq::empty());
        while i < preds.len()
            invariant
                i <= preds.len(),
                effective == if inverted {
                    op.inverse()
                } else {
                    op
                },
                predicates_model(translated@) == supported_arms(
                    translations(predicates_model(preds@.take(i as int)), self.columns(), inverted),
                ),
                effective == JunctionPredicateOp::Or ==> !translations(
                    predicates_model(preds@.take(i as int)),
                    self.columns(),
                    inverted,
                ).contains(None),
                models == predicates_model(preds@),
                arms == translations(models, self.columns(), inverted),
            decreases preds.len() - i,
        {
            let ghost prefix = predicates_model(preds@.take(i as int));
            let ghost done = translations(prefix, self.columns(), inverted);
            let ghost next = translations(
                predicates_model(preds@.take(i + 1)),
                self.columns(),
                inverted,
            );
            proof {
                lemma_predicates_model_push(preds@.take(i as int), preds@[i as int]);
                assert(preds@.take(i as int).push(preds@[i as int]) =~= preds@.take(i + 1));
                assert(predicates_model(preds@.take(i + 1)).drop_last() =~= prefix);
                assert(next == done.push(translation(preds@[i as int]@, self.columns(), inverted)));
                assert(next.drop_last() =~= done);
            }
            match self.translate_predicate(&preds[i], inverted) {
                Some(pred) => {
                    proof {
                        lemma_predicates_model_push(translated@, pred);
                        assert(!done.contains(None) ==> !next.contains(None));
                    }
                    translated.push(pred);
                },
                None => {
                    if effective == JunctionPredicateOp::Or {
                        proof {
                            lemma_translations(models, self.columns(), inverted);
                            lemma_predicates_model(preds@);
                            assert(arms[i as int] == None::<PredicateModel>);
                            assert(arms.contains(None));
                        }
                        return None;
                    }
                },
            }
            i = i + 1;
        }
        proof {
            assert(preds@.take(i as int) =~= preds@);
            lemma_translations(models, self.columns(), inverted);
            lemma_predicates_model(preds@);
            lemma_predicates_model(translated@);
        }
        if effective == JunctionPredicateOp::And && preds.len() > 0 && translated.len() == 0 {
            None
        } else {
            Some(Predicate::junction(effective, translated))
        }
    }

    /// What `pred` (or, `inverted`, its negation) says of the partition values alone.
    pub fn translate_predicate(&self, pred: &Predicate, inverted: bool) -> (r: Option<Predicate>)
        ensures
            predicate_option(r) == translation(pred@, self.columns(), inverted),
        decreases pred,
    {
        match pred {
            Predicate::BooleanExpression(expr) => self.translate_boolean_expression(expr, inverted),
            Predicate::Not(pred) => self.translate_predicate(pred, !inverted),
            Predicate::Unary(op, expr) => match self.translate_operand(expr) {
                Some(expr) => Some(self.finish_leaf(Predicate::unary(*op, expr), inverted)),
                None => None,
            },
            Predicate::Binary(op, left, right) => {
                if *op == BinaryPredicateOp::In {
                    return None;
                }
                match (self.translate_operand(left), self.translate_operand(right)) {
                    (Some(left), Some(right)) => {
                        if is_parsed(&left) && is_parsed(&right) {
                            return None;
                        }
                        Some(self.finish_leaf(Predicate::binary(*op, left, right), inverted))
                    },
                    _ => None,
                }
            },
            Predicate::Junction(op, preds) => self.translate_junction(*op, preds, inverted),
            Predicate::Opaque(_, _) => None,
            Predicate::Unknown(_) => None,
        }
    }
}

fn is_parsed(e: &Expression) -> (r: bool)
    ensures
        r == is_parsed_column(e@),
{
    match e {
        Expression::Column(name) => {
            let path = name.path();
            path.len() > 0 && same_text(path[0].as_str(), PARTITION_VALUES_PARSED)
        },
        _ => false,
    }
}

/// The translations of a list stand at the positions of its predicates.
proof fn lemma_translations(ps: Seq<PredicateModel>, columns: Seq<Seq<char>>, inverted: bool)
    ensures
        translations(ps, columns, inverted).len() == ps.len(),
        forall|i: int|
            0 <= i < ps.len() ==> #[trigger] translations(ps, columns, inverted)[i] == translation(
                ps[i],
                columns,
                inverted,
            ),
    decreases ps.len(),
{
    if ps.len() > 0 {
        let init = ps.drop_last();
        lemma_translations(init, columns, inverted);
        assert forall|i: int| 0 <= i < ps.len() implies #[trigger] translations(
            ps,
            columns,
            inverted,
        )[i] == translation(ps[i], columns, inverted) by {
            if i < init.len() {
                assert(translations(init, columns, inverted)[i] == translation(
                    init[i],
                    columns,
                    inverted,
                ));
            }
        }
    }
}

/// The predicate on checkpoint rows for a predicate on the table, if there is one: it is true of
/// every row that adds no file, and of every row that adds a file with a matching row.
pub fn as_checkpoint_partition_predicate(
    pred: &Predicate,
    physical_partition_columns: &[String],
) -> (r: Option<Predicate>)
    ensures
        predicate_option(r) == checkpoint_predicate(pred@, texts(physical_partition_columns@)),
{
    let builder = PartitionPredicateBuilder { partition_columns: physical_partition_columns };
    let references: Vec<ColumnName> = pred.references();
    let mut mentions_partition: bool = false;
    let mut i: usize = 0;
    while i < references.len()
        invariant
            i <= references.len(),
            mentions_partition <==> exists|j: int|
                0 <= j < i && is_partition_path((#[trigger] references@[j])@, builder.columns()),
        decreases references.len() - i,
    {
        if builder.is_partition_column(&references[i]) {
            mentions_partition = true;
        }
        i = i + 1;
    }
    proof {
        assert(mentions_partition <==> exists|c: Path| #[trigger]
            predicate_references(pred@).contains(c) && is_partition_path(c, builder.columns())) by {
            if mentions_partition {
                let j = choose|j: int|
                    0 <= j < references.len() && is_partition_path(
                        (#[trigger] references@[j])@,
                        builder.columns(),
                    );
                assert(paths(references@)[j] == references@[j]@);
                assert(predicate_references(pred@).contains(references@[j]@));
            }
            if exists|c: Path| #[trigger]
                predicate_references(pred@).contains(c) && is_partition_path(c, builder.columns()) {
                let c = choose|c: Path| #[trigger]
                    predicate_references(pred@).contains(c) && is_partition_path(
                        c,
                        builder.columns(),
                    );
                assert(paths(references@).contains(c));
                let j = choose|j: int| 0 <= j < paths(references@).len() && paths(references@)[j] == c;
                assert(references@[j]@ == c);
            }
        }
    }
    if !mentions_partition {
        return None;
    }
    let candidate: Predicate = match builder.translate_predicate(pred, false) {
        Some(candidate) => candidate,
        None => {
            return None;
        },
    };
    let references: Vec<ColumnName> = candidate.references();
    let mut mentions_parsed: bool = false;
    let mut i: usize = 0;
    while i < references.len()
        invariant
            i <= references.len(),
            mentions_parsed <==> exists|j: int|
                0 <= j < i && is_parsed_path((#[trigger] references@[j])@),
        decreases references.len() - i,
    {
        let path = references[i].path();
        if path.len() > 0 && same_text(path[0].as_str(), PARTITION_VALUES_PARSED) {
            mentions_parsed = true;
        }
        i = i + 1;
    }
    proof {
        assert(mentions_parsed <==> exists|c: Path| #[trigger]
            predicate_references(candidate@).contains(c) && is_parsed_path(c)) by {
            if mentions_parsed {
                let j = choose|j: int|
                    0 <= j < references.len() && is_parsed_path((#[trigger] references@[j])@);
                assert(paths(references@)[j] == references@[j]@);
                assert(predicate_references(candidate@).contains(references@[j]@));
            }
            if exists|c: Path| #[trigger]
                predicate_references(candidate@).contains(c) && is_parsed_path(c) {
                let c = choose|c: Path| #[trigger]
                    predicate_references(candidate@).contains(c) && is_parsed_path(c);
                assert(paths(references@).contains(c));
                let j = choose|j: int| 0 <= j < paths(references@).len() && paths(references@)[j] == c;
                assert(references@[j]@ == c);
            }
        }
    }
    if !mentions_parsed {
        return None;
    }
    let mut path: Vec<String> = Vec::new();
    path.push(FILE_PATH.to_owned());
    assert(texts(path@) =~= seq![FILE_PATH@]);
    Some(Predicate::or(Predicate::is_null(Expression::column(path)), candidate))
}

// ---------------------------------------------------------------------------
// Laws
// ---------------------------------------------------------------------------
/// Whether the checkpoint row `file` describes the file of the table row `row`: operations mean
/// the same on both, and the checkpoint row holds the table row's partition values.
pub open spec fn describes<V>(file: Row<V>, row: Row<V>, columns: Seq<Seq<char>>) -> bool {
    &&& file.literal == row.literal
    &&& file.truth == row.truth
    &&& file.unary == row.unary
    &&& file.binary == row.binary
    &&& forall|c: Path|
        is_partition_path(c, columns) ==> (file.column)(#[trigger] parsed_path(c)) == (row.column)(
            c,
        )
}

proof fn lemma_operand_value<V>(
    e: ExpressionModel,
    columns: Seq<Seq<char>>,
    file: Row<V>,
    row: Row<V>,
)
    requires
        describes(file, row, columns),
        translated_operand(e, columns) is Some,
    ensures
        value(translated_operand(e, columns)->0, file) == value(e, row),
{
}

/// The supported arms are the translations that exist.
proof fn lemma_supported_arms(arms: Seq<Option<PredicateModel>>)
    ensures
        forall|j: int|
            0 <= j < supported_arms(arms).len() ==> arms.contains(
                Some(#[trigger] supported_arms(arms)[j]),
            ),
        forall|i: int|
            0 <= i < arms.len() && (#[trigger] arms[i]) is Some ==> supported_arms(arms).contains(
                arms[i]->0,
            ),
        !arms.contains(None) ==> supported_arms(arms).len() == arms.len(),
    decreases arms.len(),
{
    if arms.len() > 0 {
        let init = arms.drop_last();
        let kept = supported_arms(init);
        let all = supported_arms(arms);
        lemma_supported_arms(init);
        assert forall|j: int| 0 <= j < all.len() implies arms.contains(
            Some(#[trigger] all[j]),
        ) by {
            if j < kept.len() {
                assert(kept[j] == all[j]);
                let i = choose|i: int| 0 <= i < init.len() && init[i] == Some(kept[j]);
                assert(arms[i] == Some(all[j]));
            } else {
                assert(arms[arms.len() - 1] == Some(all[j]));
            }
        }
        assert forall|i: int| 0 <= i < arms.len() && (#[trigger] arms[i]) is Some implies all.contains(
            arms[i]->0,
        ) by {
            if i < init.len() {
                assert(init[i] == arms[i]);
                let j = choose|j: int| 0 <= j < kept.len() && kept[j] == arms[i]->0;
                assert(all[j] == arms[i]->0);
            } else {
                assert(all[all.len() - 1] == arms[i]->0);
            }
        }
        if !arms.contains(None) {
            assert(!init.contains(None)) by {
                if init.contains(None) {
                    let i = choose|i: int| 0 <= i < init.len() && init[i] == None::<PredicateModel>;
                    assert(arms[i] == None::<PredicateModel>);
                }
            }
            assert(arms[arms.len() - 1] is Some);
        }
    }
}

/// A translation never rules out a match: where the predicate (or, `inverted`, its negation) is
/// true of a table row, its translation is true of the checkpoint row that describes the file.
pub proof fn law_translation_keeps_matches<V>(
    p: PredicateModel,
    columns: Seq<Seq<char>>,
    inverted: bool,
    file: Row<V>,
    row: Row<V>,
)
    requires
        describes(file, row, columns),
        translation(p, columns, inverted) is Some,
        holds(p, row) == Some(!inverted),
    ensures
        holds(translation(p, columns, inverted)->0, file) == Some(true),
    decreases p,
{
    let t = translation(p, columns, inverted)->0;
    match p {
        PredicateModel::BooleanExpression(e) => match e {
            ExpressionModel::Predicate(q) => {
                law_translation_keeps_matches(*q, columns, inverted, file, row);
            },
            e => {
                lemma_operand_value(e, columns, file, row);
                let operand = translated_operand(e, columns)->0;
                assert(holds(PredicateModel::BooleanExpression(operand), file) == holds(p, row));
            },
        },
        PredicateModel::Not(q) => {
            law_translation_keeps_matches(*q, columns, !inverted, file, row);
        },
        PredicateModel::Unary(op, e) => {
            lemma_operand_value(e, columns, file, row);
            let operand = translated_operand(e, columns)->0;
            assert(holds(PredicateModel::Unary(op, operand), file) == holds(p, row));
        },
        PredicateModel::Binary(op, l, r) => {
            lemma_operand_value(l, columns, file, row);
            lemma_operand_value(r, columns, file, row);
            let left = translated_operand(l, columns)->0;
            let right = translated_operand(r, columns)->0;
            assert(holds(PredicateModel::Binary(op, left, right), file) == holds(p, row));
        },
        PredicateModel::Junction(op, ps) => {
            let arms = translations(ps, columns, inverted);
            let kept = supported_arms(arms);
            let before = holds_each(ps, row);
            let after = holds_each(kept, file);
            lemma_translations(ps, columns, inverted);
            lemma_supported_arms(arms);
            lemma_holds_each(ps, row);
            lemma_holds_each(kept, file);
            let effective = if inverted {
                op.inverse()
            } else {
                op
            };
            if effective == JunctionPredicateOp::And {
                assert forall|j: int| 0 <= j < after.len() implies #[trigger] after[j] == Some(
                    true,
                ) by {
                    assert(arms.contains(Some(kept[j])));
                    let i = choose|i: int| 0 <= i < arms.len() && arms[i] == Some(kept[j]);
                    assert(before[i] == Some(!inverted)) by {
                        if before[i] == Some(inverted) {
                            assert(before.contains(Some(inverted)));
                        } else if before[i] is None {
                            assert(before.contains(None));
                        }
                    }
                    law_translation_keeps_matches(ps[i], columns, inverted, file, row);
                }
                assert(!after.contains(Some(false)));
                assert(!after.contains(None));
            } else {
                assert(before.contains(Some(!inverted)));
                let i = choose|i: int| 0 <= i < before.len() && before[i] == Some(!inverted);
                assert(arms[i] is Some) by {
                    if arms[i] is None {
                        assert(arms.contains(None));
                    }
                }
                law_translation_keeps_matches(ps[i], columns, inverted, file, row);
                let j = choose|j: int| 0 <= j < kept.len() && kept[j] == arms[i]->0;
                assert(after[j] == Some(true));
            }
        },
        PredicateModel::Opaque(_, _) => {},
        PredicateModel::Unknown(_) => {},
    }
}

/// The checkpoint predicate never skips the row of a file that holds a matching row.
pub proof fn law_checkpoint_predicate_keeps_matching_files<V>(
    p: PredicateModel,
    columns: Seq<Seq<char>>,
    file: Row<V>,
    row: Row<V>,
)
    requires
        describes(file, row, columns),
        checkpoint_predicate(p, columns) is Some,
        holds(p, row) == Some(true),
    ensures
        holds(checkpoint_predicate(p, columns)->0, file) == Some(true),
{
    law_translation_keeps_matches(p, columns, false, file, row);
    lemma_second_arm_true(adds_no_file(), translation(p, columns, false)->0, file);
}

/// The checkpoint predicate never skips a row that adds no file.
pub proof fn law_checkpoint_predicate_keeps_other_actions<V>(
    p: PredicateModel,
    columns: Seq<Seq<char>>,
    file: Row<V>,
)
    requires
        checkpoint_predicate(p, columns) is Some,
        (file.unary)(UnaryPredicateOp::IsNull, (file.column)(seq![FILE_PATH@])) == Some(true),
    ensures
        holds(checkpoint_predicate(p, columns)->0, file) == Some(true),
{
    reveal_with_fuel(holds, 2);
    reveal_with_fuel(value, 2);
    lemma_first_arm_true(adds_no_file(), translation(p, columns, false)->0, file);
}

proof fn lemma_first_arm_true<V>(a: PredicateModel, b: PredicateModel, row: Row<V>)
    requires
        holds(a, row) == Some(true),
    ensures
        holds(PredicateModel::Junction(JunctionPredicateOp::Or, seq![a, b]), row) == Some(true),
{
    let ts = holds_each(seq![a, b], row);
    lemma_holds_each(seq![a, b], row);
    assert(ts[0] == Some(true));
}

proof fn lemma_second_arm_true<V>(a: PredicateModel, b: PredicateModel, row: Row<V>)
    requires
        holds(b, row) == Some(true),
    ensures
        holds(PredicateModel::Junction(JunctionPredicateOp::Or, seq![a, b]), row) == Some(true),
{
    let ts = holds_each(seq![a, b], row);
    lemma_holds_each(seq![a, b], row);
    assert(ts[1] == Some(true));
}

/// A column that a list of predicates mentions is one that an arm of it mentions.
proof fn lemma_mentioned_by_arm(ps: Seq<PredicateModel>, c: Path) -> (i: int)
    requires
        predicates_references(ps).contains(c),
    ensures
        0 <= i < ps.len(),
        predicate_references(ps[i]).contains(c),
    decreases ps.len(),
{
    let init = ps.drop_last();
    if ps.len() == 0 {
        0
    } else if predicates_references(init).contains(c) {
        let i = lemma_mentioned_by_arm(init, c);
        assert(init[i] == ps[i]);
        i
    } else {
        ps.len() - 1
    }
}

/// A translation mentions nothing but partition values.
pub proof fn law_translation_mentions_partition_values_only(
    p: PredicateModel,
    columns: Seq<Seq<char>>,
    inverted: bool,
    c: Path,
)
    requires
        translation(p, columns, inverted) is Some,
        predicate_references(translation(p, columns, inverted)->0).contains(c),
    ensures
        exists|part: Path| #[trigger] is_partition_path(part, columns) && c == parsed_path(part),
    decreases p,
{
    reveal_with_fuel(predicate_references, 2);
    let t = translation(p, columns, inverted)->0;
    match p {
        PredicateModel::BooleanExpression(e) => match e {
            ExpressionModel::Predicate(q) => {
                law_translation_mentions_partition_values_only(*q, columns, inverted, c);
            },
            e => {
                lemma_operand_reference(e, columns, c);
            },
        },
        PredicateModel::Not(q) => {
            law_translation_mentions_partition_values_only(*q, columns, !inverted, c);
        },
        PredicateModel::Unary(op, e) => {
            lemma_operand_reference(e, columns, c);
        },
        PredicateModel::Binary(op, l, r) => {
            let bare = PredicateModel::Binary(
                op,
                translated_operand(l, columns)->0,
                translated_operand(r, columns)->0,
            );
            assert(predicate_references(t) == predicate_references(bare));
            if expression_references(translated_operand(l, columns)->0).contains(c) {
                lemma_operand_reference(l, columns, c);
            } else {
                lemma_operand_reference(r, columns, c);
            }
        },
        PredicateModel::Junction(op, ps) => {
            let arms = translations(ps, columns, inverted);
            let kept = supported_arms(arms);
            lemma_translations(ps, columns, inverted);
            lemma_supported_arms(arms);
            let j = lemma_mentioned_by_arm(kept, c);
            let i = choose|i: int| 0 <= i < arms.len() && arms[i] == Some(kept[j]);
            law_translation_mentions_partition_values_only(ps[i], columns, inverted, c);
        },
        PredicateModel::Opaque(_, _) => {},
        PredicateModel::Unknown(_) => {},
    }
}

proof fn lemma_operand_reference(e: ExpressionModel, columns: Seq<Seq<char>>, c: Path)
    requires
        translated_operand(e, columns) is Some,
        expression_references(translated_operand(e, columns)->0).contains(c),
    ensures
        exists|part: Path| #[trigger] is_partition_path(part, columns) && c == parsed_path(part),
{
    match e {
        ExpressionModel::Column(part) => {
            assert(is_partition_path(part, columns));
            assert(c == parsed_path(part));
        },
        _ => {},
    }
}

/// The checkpoint predicate mentions the file's path, at least one partition value, and nothing
/// but these: no data column is left in it.
pub proof fn law_checkpoint_predicate_references(p: PredicateModel, columns: Seq<Seq<char>>)
    requires
        checkpoint_predicate(p, columns) is Some,
    ensures
        ({
            let references = predicate_references(checkpoint_predicate(p, columns)->0);
            &&& references.contains(seq![FILE_PATH@])
            &&& exists|part: Path| #[trigger]
                is_partition_path(part, columns) && references.contains(parsed_path(part))
            &&& forall|c: Path| #[trigger]
                references.contains(c) ==> c == seq![FILE_PATH@] || exists|part: Path| #[trigger]
                    is_partition_path(part, columns) && c == parsed_path(part)
        }),
{
    reveal_with_fuel(predicate_references, 2);
    reveal_with_fuel(expression_references, 2);
    let t = translation(p, columns, false)->0;
    let arms = seq![adds_no_file(), t];
    let references = predicate_references(checkpoint_predicate(p, columns)->0);
    assert(references == predicates_references(arms));
    lemma_predicates_references(arms, 0);
    lemma_predicates_references(arms, 1);
    assert(predicate_references(adds_no_file()).contains(seq![FILE_PATH@]));
    assert(arms[0] == adds_no_file());
    let parsed = choose|c: Path| #[trigger]
        predicate_references(t).contains(c) && is_parsed_path(c);
    law_translation_mentions_partition_values_only(p, columns, false, parsed);
    let part = choose|part: Path| #[trigger]
        is_partition_path(part, columns) && parsed == parsed_path(part);
    assert(arms[1] == t);
    assert(is_partition_path(part, columns) && references.contains(parsed_path(part)));
    assert forall|c: Path| #[trigger] references.contains(c) implies c == seq![FILE_PATH@]
        || exists|part: Path| #[trigger]
        is_partition_path(part, columns) && c == parsed_path(part) by {
        let i = lemma_mentioned_by_arm(arms, c);
        if i == 1 {
            law_translation_mentions_partition_values_only(p, columns, false, c);
        }
    }
}

/// A conjunction leaves out an arm that cannot be translated.
pub proof fn law_unsupported_conjunct_is_left_out(
    supported: PredicateModel,
    unsupported: PredicateModel,
    columns: Seq<Seq<char>>,
)
    requires
        translation(supported, columns, false) is Some,
        translation(unsupported, columns, false) is None,
    ensures
        translation(
            PredicateModel::Junction(JunctionPredicateOp::And, seq![supported, unsupported]),
            columns,
            false,
        ) == Some(
            PredicateModel::Junction(
                JunctionPredicateOp::And,
                seq![translation(supported, columns, false)->0],
            ),
        ),
{
    let ps = seq![supported, unsupported];
    let arms = translations(ps, columns, false);
    lemma_translations(ps, columns, false);
    assert(arms =~= seq![translation(supported, columns, false), None]);
    assert(arms.drop_last() =~= seq![translation(supported, columns, false)]);
    assert(arms.drop_last().drop_last() =~= Seq::empty());
    reveal_with_fuel(supported_arms, 3);
    assert(supported_arms(arms) =~= seq![translation(supported, columns, false)->0]);
}

/// A disjunction with an arm that cannot be translated cannot be translated.
pub proof fn law_unsupported_disjunct_disables(
    ps: Seq<PredicateModel>,
    columns: Seq<Seq<char>>,
    i: int,
)
    requires
        0 <= i < ps.len(),
        translation(ps[i], columns, false) is None,
    ensures
        translation(PredicateModel::Junction(JunctionPredicateOp::Or, ps), columns, false) is None,
{
    let arms = translations(ps, columns, false);
    lemma_translations(ps, columns, false);
    assert(arms[i] == None::<PredicateModel>);
    assert(arms.contains(None));
}

/// Whether `e` is a literal or one of the partition columns `columns`.
pub open spec fn is_partition_operand(e: ExpressionModel, columns: Seq<Seq<char>>) -> bool {
    match e {
        ExpressionModel::Literal(_) => true,
        ExpressionModel::Column(c) => c.len() == 1 && columns.contains(c[0]),
        _ => false,
    }
}

/// Whether a predicate that is no junction, no negation and no wrapped predicate is one on a
/// partition column: a boolean, a test, or a comparison other than `IN` that does not compare two
/// columns.
pub open spec fn is_partition_term(p: PredicateModel, columns: Seq<Seq<char>>) -> bool {
    match p {
        PredicateModel::BooleanExpression(e) => is_partition_operand(e, columns),
        PredicateModel::Unary(_, e) => is_partition_operand(e, columns),
        PredicateModel::Binary(op, l, r) => op != BinaryPredicateOp::In && is_partition_operand(
            l,
            columns,
        ) && is_partition_operand(r, columns) && !(l is Column && r is Column),
        _ => false,
    }
}

/// Whether a predicate is made of such terms by `AND`, `OR` and `NOT`.
pub open spec fn is_partition_condition(p: PredicateModel, columns: Seq<Seq<char>>) -> bool
    decreases p,
{
    match p {
        PredicateModel::BooleanExpression(ExpressionModel::Predicate(q)) => is_partition_condition(
            *q,
            columns,
        ),
        PredicateModel::Not(q) => is_partition_condition(*q, columns),
        PredicateModel::Junction(_, ps) => forall|i: int|
            0 <= i < ps.len() ==> is_partition_condition(#[trigger] ps[i], columns),
        _ => is_partition_term(p, columns),
    }
}

/// Whether the checkpoint row `file` holds the partition values of the table row `row`, and
/// operations mean the same on both.
pub open spec fn holds_partition_values<V>(
    file: Row<V>,
    row: Row<V>,
    columns: Seq<Seq<char>>,
) -> bool {
    &&& same_operations(file, row)
    &&& forall|name: Seq<char>|
        #[trigger] columns.contains(name) ==> (row.column)(seq![name]) == (file.column)(
            seq!["partitionValues_parsed"@, name],
        )
}

proof fn lemma_holds_partition_values<V>(file: Row<V>, row: Row<V>, columns: Seq<Seq<char>>)
    requires
        holds_partition_values(file, row, columns),
    ensures
        describes(file, row, columns),
{
    assert forall|c: Path| is_partition_path(c, columns) implies (file.column)(
        #[trigger] parsed_path(c),
    ) == (row.column)(c) by {
        assert(c =~= seq![c[0]]);
        assert(parsed_path(c) =~= seq!["partitionValues_parsed"@, c[0]]);
        assert((row.column)(seq![c[0]]) == (file.column)(seq!["partitionValues_parsed"@, c[0]]));
    }
}

/// Of a term, there is a translation exactly where the term is one on a partition column.
pub proof fn law_terms_on_partition_columns_are_translated(
    p: PredicateModel,
    columns: Seq<Seq<char>>,
    inverted: bool,
)
    requires
        !(p is Junction),
        !(p is Not),
        !(p matches PredicateModel::BooleanExpression(ExpressionModel::Predicate(_))),
    ensures
        translation(p, columns, inverted) is Some <==> is_partition_term(p, columns),
{
    if let PredicateModel::Binary(_, l, r) = p {
        if let ExpressionModel::Column(c) = l {
            assert(parsed_path(c)[0] == PARTITION_VALUES_PARSED@);
        }
        if let ExpressionModel::Column(c) = r {
            assert(parsed_path(c)[0] == PARTITION_VALUES_PARSED@);
        }
    }
}

/// Where a junction, a negation or a wrapped predicate has a translation. A disjunction has one
/// exactly where all of its arms have one. A conjunction has one where at least one arm has one, or
/// where it has no arm. A negation turns the one into the other.
pub proof fn law_junctions_are_translated(
    ps: Seq<PredicateModel>,
    q: PredicateModel,
    columns: Seq<Seq<char>>,
)
    ensures
        translation(PredicateModel::Junction(JunctionPredicateOp::Or, ps), columns, false) is Some
            <==> forall|i: int|
            0 <= i < ps.len() ==> translation(#[trigger] ps[i], columns, false) is Some,
        translation(PredicateModel::Junction(JunctionPredicateOp::And, ps), columns, false) is Some
            <==> ps.len() == 0 || exists|i: int|
            0 <= i < ps.len() && translation(#[trigger] ps[i], columns, false) is Some,
        translation(PredicateModel::Junction(JunctionPredicateOp::And, ps), columns, true) is Some
            <==> forall|i: int|
            0 <= i < ps.len() ==> translation(#[trigger] ps[i], columns, true) is Some,
        translation(PredicateModel::Junction(JunctionPredicateOp::Or, ps), columns, true) is Some
            <==> ps.len() == 0 || exists|i: int|
            0 <= i < ps.len() && translation(#[trigger] ps[i], columns, true) is Some,
        translation(PredicateModel::Not(Box::new(q)), columns, false) is Some <==> translation(
            q,
            columns,
            true,
        ) is Some,
        translation(PredicateModel::Not(Box::new(q)), columns, true) is Some <==> translation(
            q,
            columns,
            false,
        ) is Some,
        forall|inverted: bool|
            translation(
                PredicateModel::BooleanExpression(ExpressionModel::Predicate(Box::new(q))),
                columns,
                inverted,
            ) is Some <==> (#[trigger] translation(q, columns, inverted)) is Some,
{
    lemma_arms_are_translated(ps, columns, false);
    lemma_arms_are_translated(ps, columns, true);
}

proof fn lemma_arms_are_translated(ps: Seq<PredicateModel>, columns: Seq<Seq<char>>, inverted: bool)
    ensures
        translations(ps, columns, inverted).len() == ps.len(),
        translations(ps, columns, inverted).contains(None) <==> !(forall|i: int|
            0 <= i < ps.len() ==> translation(#[trigger] ps[i], columns, inverted) is Some),
        supported_arms(translations(ps, columns, inverted)).len() > 0 <==> exists|i: int|
            0 <= i < ps.len() && translation(#[trigger] ps[i], columns, inverted) is Some,
{
    let arms = translations(ps, columns, inverted);
    let kept = supported_arms(arms);
    lemma_translations(ps, columns, inverted);
    lemma_supported_arms(arms);
    if arms.contains(None) {
        let i = choose|i: int| 0 <= i < arms.len() && arms[i] == None::<PredicateModel>;
        assert(translation(ps[i], columns, inverted) is None);
    }
    if !(forall|i: int| 0 <= i < ps.len() ==> translation(#[trigger] ps[i], columns, inverted) is Some) {
        let i = choose|i: int|
            0 <= i < ps.len() && !(translation(#[trigger] ps[i], columns, inverted) is Some);
        assert(arms[i] == None::<PredicateModel>);
    }
    if kept.len() > 0 {
        assert(arms.contains(Some(kept[0])));
        let i = choose|i: int| 0 <= i < arms.len() && arms[i] == Some(kept[0]);
        assert(translation(ps[i], columns, inverted) is Some);
    }
    if exists|i: int| 0 <= i < ps.len() && translation(#[trigger] ps[i], columns, inverted) is Some {
        let i = choose|i: int|
            0 <= i < ps.len() && translation(#[trigger] ps[i], columns, inverted) is Some;
        assert(arms[i] is Some);
        assert(kept.contains(arms[i]->0));
    }
}

/// Whether one of the predicates has the translation `t`, and that is `truth` of a checkpoint row.
pub open spec fn an_arm_is<V>(
    ps: Seq<PredicateModel>,
    columns: Seq<Seq<char>>,
    inverted: bool,
    file: Row<V>,
    truth: Truth,
) -> bool {
    exists|i: int|
        0 <= i < ps.len() && (translation(#[trigger] ps[i], columns, inverted) matches Some(t)
            && holds(t, file) == truth)
}

/// What the translation of a junction says of a checkpoint row is what the translations of its arms
/// say, of all arms that have one: a conjunction is false where one of them is, and true where all of
/// them are. A disjunction is true where one of them is, and false where all of them are. Under a
/// negation a conjunction becomes a disjunction, and a disjunction a conjunction.
pub proof fn law_translated_junction_says_what_its_arms_say<V>(
    op: JunctionPredicateOp,
    ps: Seq<PredicateModel>,
    columns: Seq<Seq<char>>,
    inverted: bool,
    file: Row<V>,
)
    ensures
        translation(PredicateModel::Junction(op, ps), columns, inverted) matches Some(t) ==> {
            let decisive = (op == JunctionPredicateOp::Or) != inverted;
            let truth = holds(t, file);
            &&& truth == Some(decisive) <==> an_arm_is(ps, columns, inverted, file, Some(decisive))
            &&& truth == Some(!decisive) <==> !an_arm_is(
                ps,
                columns,
                inverted,
                file,
                Some(decisive),
            ) && !an_arm_is(ps, columns, inverted, file, None)
        },
{
    if let Some(t) = translation(PredicateModel::Junction(op, ps), columns, inverted) {
        let arms = translations(ps, columns, inverted);
        let kept = supported_arms(arms);
        let after = holds_each(kept, file);
        lemma_translations(ps, columns, inverted);
        lemma_supported_arms(arms);
        lemma_holds_each(kept, file);
        assert forall|truth: Truth|
            #![trigger an_arm_is(ps, columns, inverted, file, truth)]
            after.contains(truth) <==> an_arm_is(ps, columns, inverted, file, truth) by {
            if after.contains(truth) {
                let j = choose|j: int| 0 <= j < after.len() && after[j] == truth;
                assert(arms.contains(Some(kept[j])));
                let i = choose|i: int| 0 <= i < arms.len() && arms[i] == Some(kept[j]);
                assert(translation(ps[i], columns, inverted) == Some(kept[j]));
            }
            if an_arm_is(ps, columns, inverted, file, truth) {
                let i = choose|i: int|
                    0 <= i < ps.len() && (translation(#[trigger] ps[i], columns, inverted) matches Some(
                        t,
                    ) && holds(t, file) == truth);
                assert(arms[i] is Some);
                assert(kept.contains(arms[i]->0));
                let j = choose|j: int| 0 <= j < kept.len() && kept[j] == arms[i]->0;
                assert(after[j] == truth);
            }
        }
        let decisive = (op == JunctionPredicateOp::Or) != inverted;
        assert(after.contains(Some(decisive)) <==> an_arm_is(
            ps,
            columns,
            inverted,
            file,
            Some(decisive),
        ));
        assert(after.contains(None) <==> an_arm_is(ps, columns, inverted, file, None));
    }
}

proof fn lemma_negated_junction(op: JunctionPredicateOp, ts: Seq<Truth>, us: Seq<Truth>)
    requires
        ts.len() == us.len(),
        forall|i: int| 0 <= i < ts.len() ==> #[trigger] us[i] == negation(ts[i]),
    ensures
        junction(op.inverse(), us) == negation(junction(op, ts)),
{
    assert forall|t: Truth| us.contains(negation(t)) <==> #[trigger] ts.contains(t) by {
        if ts.contains(t) {
            let i = choose|i: int| 0 <= i < ts.len() && ts[i] == t;
            assert(us[i] == negation(t));
        }
        if us.contains(negation(t)) {
            let i = choose|i: int| 0 <= i < us.len() && us[i] == negation(t);
            assert(ts[i] == t);
        }
    }
    assert(us.contains(negation(Some(true))) <==> ts.contains(Some(true)));
    assert(us.contains(negation(Some(false))) <==> ts.contains(Some(false)));
    assert(us.contains(negation(None)) <==> ts.contains(None::<bool>));
}

/// A predicate on partition columns alone has a translation, and that says of the checkpoint row of a
/// file what the predicate (or, `inverted`, its negation) says of the rows of the file: it is true,
/// false or null alike.
pub proof fn law_partition_conditions_are_translated_exactly<V>(
    p: PredicateModel,
    columns: Seq<Seq<char>>,
    inverted: bool,
    file: Row<V>,
    row: Row<V>,
)
    requires
        is_partition_condition(p, columns),
        holds_partition_values(file, row, columns),
    ensures
        translation(p, columns, inverted) matches Some(t) && holds(t, file) == (if inverted {
            negation(holds(p, row))
        } else {
            holds(p, row)
        }),
    decreases p,
{
    reveal_with_fuel(holds, 2);
    lemma_holds_partition_values(file, row, columns);
    match p {
        PredicateModel::BooleanExpression(e) => {
            if let ExpressionModel::Predicate(q) = e {
                law_partition_conditions_are_translated_exactly(*q, columns, inverted, file, row);
            } else {
                lemma_operand_value(e, columns, file, row);
            }
        },
        PredicateModel::Not(q) => {
            law_partition_conditions_are_translated_exactly(*q, columns, !inverted, file, row);
        },
        PredicateModel::Unary(_, e) => {
            lemma_operand_value(e, columns, file, row);
        },
        PredicateModel::Binary(_, l, r) => {
            law_terms_on_partition_columns_are_translated(p, columns, inverted);
            lemma_operand_value(l, columns, file, row);
            lemma_operand_value(r, columns, file, row);
        },
        PredicateModel::Junction(op, ps) => {
            let arms = translations(ps, columns, inverted);
            let kept = supported_arms(arms);
            let before = holds_each(ps, row);
            let after = holds_each(kept, file);
            lemma_translations(ps, columns, inverted);
            lemma_holds_each(ps, row);
            assert forall|i: int| 0 <= i < ps.len() implies (#[trigger] arms[i] matches Some(t)
                && holds(t, file) == (if inverted {
                negation(before[i])
            } else {
                before[i]
            })) by {
                assert(is_partition_condition(ps[i], columns));
                law_partition_conditions_are_translated_exactly(ps[i], columns, inverted, file, row);
            }
            assert(!arms.contains(None));
            lemma_all_arms_supported(arms);
            lemma_holds_each(kept, file);
            if inverted {
                assert forall|i: int| 0 <= i < before.len() implies #[trigger] after[i] == negation(
                    before[i],
                ) by {
                    assert(arms[i] == Some(kept[i]));
                }
                lemma_negated_junction(op, before, after);
            } else {
                assert forall|i: int| 0 <= i < before.len() implies #[trigger] after[i]
                    == before[i] by {
                    assert(arms[i] == Some(kept[i]));
                }
                assert(after =~= before);
            }
        },
        PredicateModel::Opaque(_, _) => {},
        PredicateModel::Unknown(_) => {},
    }
}

proof fn lemma_all_arms_supported(arms: Seq<Option<PredicateModel>>)
    requires
        !arms.contains(None),
    ensures
        supported_arms(arms).len() == arms.len(),
        forall|i: int|
            0 <= i < arms.len() ==> #[trigger] arms[i] == Some(supported_arms(arms)[i]),
    decreases arms.len(),
{
    if arms.len() > 0 {
        let init = arms.drop_last();
        assert(!init.contains(None)) by {
            if init.contains(None) {
                let i = choose|i: int| 0 <= i < init.len() && init[i] == None::<PredicateModel>;
                assert(arms[i] == None::<PredicateModel>);
            }
        }
        lemma_all_arms_supported(init);
        assert(arms[arms.len() - 1] != None::<PredicateModel>);
        assert forall|i: int| 0 <= i < arms.len() implies #[trigger] arms[i] == Some(
            supported_arms(arms)[i],
        ) by {
            if i < init.len() {
                assert(init[i] == arms[i]);
            }
        }
    }
}

/// A predicate on partition columns alone that mentions one has a checkpoint predicate. Of a row that
/// adds a file, that says what the predicate says of the rows of the file: it skips all files that
/// it can, and no other.
pub proof fn law_partition_conditions_skip_exactly<V>(
    p: PredicateModel,
    columns: Seq<Seq<char>>,
    name: Seq<char>,
    file: Row<V>,
    row: Row<V>,
)
    requires
        is_partition_condition(p, columns),
        columns.contains(name),
        predicate_references(p).contains(seq![name]),
        holds_partition_values(file, row, columns),
        (file.unary)(UnaryPredicateOp::IsNull, (file.column)(seq!["path"@])) == Some(false),
    ensures
        checkpoint_predicate(p, columns) matches Some(q) && holds(q, file) == holds(p, row),
{
    reveal_with_fuel(holds, 2);
    reveal_with_fuel(value, 2);
    law_partition_conditions_are_translated_exactly(p, columns, false, file, row);
    let t = translation(p, columns, false)->0;
    lemma_partition_references_are_kept(p, columns, false, name);
    let part: Path = seq![name];
    assert(predicate_references(p).contains(part) && is_partition_path(part, columns));
    assert(predicate_references(t).contains(parsed_path(part)) && is_parsed_path(
        parsed_path(part),
    ));
    let arms = seq![adds_no_file(), t];
    let ts = holds_each(arms, file);
    lemma_holds_each(arms, file);
    assert(ts[0] == Some(false));
    assert(ts[1] == holds(t, file));
    assert(ts.contains(holds(t, file)));
    assert forall|u: Truth| ts.contains(u) implies u == Some(false) || u == holds(t, file) by {
        let i = choose|i: int| 0 <= i < ts.len() && ts[i] == u;
    }
}

proof fn lemma_partition_references_are_kept(
    p: PredicateModel,
    columns: Seq<Seq<char>>,
    inverted: bool,
    name: Seq<char>,
)
    requires
        is_partition_condition(p, columns),
        predicate_references(p).contains(seq![name]),
    ensures
        translation(p, columns, inverted) matches Some(t) && predicate_references(t).contains(
            parsed_path(seq![name]),
        ),
    decreases p,
{
    reveal_with_fuel(predicate_references, 2);
    reveal_with_fuel(expression_references, 2);
    match p {
        PredicateModel::BooleanExpression(e) => {
            if let ExpressionModel::Predicate(q) = e {
                assert(expression_references(e) == predicate_references(*q));
                lemma_partition_references_are_kept(*q, columns, inverted, name);
            } else {
                let operand = translated_operand(e, columns)->0;
                let bare = PredicateModel::BooleanExpression(operand);
                assert(translation(p, columns, inverted) == Some(leaf(bare, inverted)));
                assert(predicate_references(leaf(bare, inverted)) == predicate_references(bare));
                assert(predicate_references(bare) == expression_references(operand));
                assert(expression_references(e).contains(seq![name]));
            }
        },
        PredicateModel::Not(q) => {
            lemma_partition_references_are_kept(*q, columns, !inverted, name);
        },
        PredicateModel::Unary(op, e) => {
            let operand = translated_operand(e, columns)->0;
            let bare = PredicateModel::Unary(op, operand);
            assert(translation(p, columns, inverted) == Some(leaf(bare, inverted)));
            assert(predicate_references(leaf(bare, inverted)) == predicate_references(bare));
            assert(predicate_references(bare) == expression_references(operand));
        },
        PredicateModel::Binary(op, l, r) => {
            law_terms_on_partition_columns_are_translated(p, columns, inverted);
            let bare = PredicateModel::Binary(
                op,
                translated_operand(l, columns)->0,
                translated_operand(r, columns)->0,
            );
            let t = translation(p, columns, inverted)->0;
            assert(predicate_references(t) == predicate_references(bare));
        },
        PredicateModel::Junction(op, ps) => {
            let arms = translations(ps, columns, inverted);
            let kept = supported_arms(arms);
            let i = lemma_mentioned_by_arm(ps, seq![name]);
            lemma_translations(ps, columns, inverted);
            assert(is_partition_condition(ps[i], columns));
            lemma_partition_references_are_kept(ps[i], columns, inverted, name);
            assert(!arms.contains(None)) by {
                if arms.contains(None) {
                    let j = choose|j: int| 0 <= j < arms.len() && arms[j] == None::<PredicateModel>;
                    assert(is_partition_condition(ps[j], columns));
                    lemma_partition_condition_has_translation(ps[j], columns, inverted);
                }
            }
            lemma_all_arms_supported(arms);
            assert(arms[i] == Some(kept[i]));
            lemma_predicates_references(kept, i);
        },
        _ => {},
    }
}

proof fn lemma_partition_condition_has_translation(
    p: PredicateModel,
    columns: Seq<Seq<char>>,
    inverted: bool,
)
    requires
        is_partition_condition(p, columns),
    ensures
        translation(p, columns, inverted) is Some,
    decreases p,
{
    match p {
        PredicateModel::BooleanExpression(ExpressionModel::Predicate(q)) => {
            lemma_partition_condition_has_translation(*q, columns, inverted);
        },
        PredicateModel::Not(q) => {
            lemma_partition_condition_has_translation(*q, columns, !inverted);
        },
        PredicateModel::Junction(_, ps) => {
            let arms = translations(ps, columns, inverted);
            lemma_translations(ps, columns, inverted);
            assert forall|i: int| 0 <= i < arms.len() implies (#[trigger] arms[i]) is Some by {
                assert(is_partition_condition(ps[i], columns));
                lemma_partition_condition_has_translation(ps[i], columns, inverted);
            }
            assert(!arms.contains(None));
            lemma_all_arms_supported(arms);
        },
        _ => {
            law_terms_on_partition_columns_are_translated(p, columns, inverted);
        },
    }
}

/// When there is a checkpoint predicate: where the predicate mentions a partition column and has a
/// translation that does so too. It holds of a checkpoint row where the row adds no file, or the
/// translation holds.
pub proof fn law_checkpoint_predicate_adds_nothing<V>(
    p: PredicateModel,
    columns: Seq<Seq<char>>,
    file: Row<V>,
)
    ensures
        checkpoint_predicate(p, columns) is Some <==> {
            &&& exists|name: Seq<char>|
                #[trigger] columns.contains(name) && predicate_references(p).contains(seq![name])
            &&& translation(p, columns, false) matches Some(t) && exists|name: Seq<char>|
                #[trigger] columns.contains(name) && predicate_references(t).contains(
                    seq!["partitionValues_parsed"@, name],
                )
        },
        checkpoint_predicate(p, columns) matches Some(q) ==> (holds(q, file) == Some(true) <==> (
        file.unary)(UnaryPredicateOp::IsNull, (file.column)(seq!["path"@])) == Some(true) || holds(
            translation(p, columns, false)->0,
            file,
        ) == Some(true)),
{
    reveal_with_fuel(holds, 2);
    reveal_with_fuel(value, 2);
    let mentions = exists|c: Path| #[trigger]
        predicate_references(p).contains(c) && is_partition_path(c, columns);
    assert(mentions <==> exists|name: Seq<char>|
        #[trigger] columns.contains(name) && predicate_references(p).contains(seq![name])) by {
        if mentions {
            let c = choose|c: Path| #[trigger]
                predicate_references(p).contains(c) && is_partition_path(c, columns);
            assert(c =~= seq![c[0]]);
            assert(columns.contains(c[0]) && predicate_references(p).contains(seq![c[0]]));
        }
        if exists|name: Seq<char>|
            #[trigger] columns.contains(name) && predicate_references(p).contains(seq![name]) {
            let name = choose|name: Seq<char>|
                #[trigger] columns.contains(name) && predicate_references(p).contains(seq![name]);
            let c: Path = seq![name];
            assert(predicate_references(p).contains(c) && is_partition_path(c, columns));
        }
    }
    if let Some(t) = translation(p, columns, false) {
        let parsed = exists|c: Path| #[trigger]
            predicate_references(t).contains(c) && is_parsed_path(c);
        assert(parsed <==> exists|name: Seq<char>|
            #[trigger] columns.contains(name) && predicate_references(t).contains(
                seq!["partitionValues_parsed"@, name],
            )) by {
            if parsed {
                let c = choose|c: Path| #[trigger]
                    predicate_references(t).contains(c) && is_parsed_path(c);
                law_translation_mentions_partition_values_only(p, columns, false, c);
                let part = choose|part: Path| #[trigger]
                    is_partition_path(part, columns) && c == parsed_path(part);
                assert(c =~= seq!["partitionValues_parsed"@, part[0]]);
                assert(columns.contains(part[0]) && predicate_references(t).contains(
                    seq!["partitionValues_parsed"@, part[0]],
                ));
            }
            if exists|name: Seq<char>|
                #[trigger] columns.contains(name) && predicate_references(t).contains(
                    seq!["partitionValues_parsed"@, name],
                ) {
                let name = choose|name: Seq<char>|
                    #[trigger] columns.contains(name) && predicate_references(t).contains(
                        seq!["partitionValues_parsed"@, name],
                    );
                let c: Path = seq!["partitionValues_parsed"@, name];
                assert(predicate_references(t).contains(c) && is_parsed_path(c));
            }
        }
        let arms = seq![adds_no_file(), t];
        let ts = holds_each(arms, file);
        lemma_holds_each(arms, file);
        assert(ts[0] == holds(adds_no_file(), file));
        assert(ts[1] == holds(t, file));
        assert(ts.contains(Some(true)) <==> ts[0] == Some(true) || ts[1] == Some(true));
    }
}

} // verus!
