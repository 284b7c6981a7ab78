//! When expressions are equal.
use vstd::prelude::*;

use crate::expressions::{
    expression_model, expressions_model, field_patch_model, field_patches_model,
    lemma_expressions_model, lemma_field_patches_model, lemma_predicates_model, predicate_model,
    predicates_model, Expression, ExpressionModel, FieldPatch, FieldPatchModel,
    Predicate, PredicateModel, Scalar, StructPatch,
};
use crate::schema::StructType;
use crate::text::{same_text, same_texts};

verus! {

// ---------------------------------------------------------------------------
// Equality
// ---------------------------------------------------------------------------
/// The position of the patch after the field called `name`. Should there be several, the last one
/// counts.
pub open spec fn patch_position(patches: Seq<FieldPatchModel>, name: Seq<char>) -> Option<int>
    decreases patches.len(),
{
    if patches.len() == 0 {
        None
    } else if patches.last().field_name == name {
        Some(patches.len() - 1)
    } else {
        patch_position(patches.drop_last(), name)
    }
}

/// Whether the first `n` patches of `a` that count insert what those of `b` after the same fields
/// insert.
pub open spec fn patches_agree(a: Seq<FieldPatchModel>, b: Seq<FieldPatchModel>, n: nat) -> bool
    decreases a, n,
{
    if n == 0 || n > a.len() {
        true
    } else {
        let patch = a[n - 1];
        &&& patches_agree(a, b, (n - 1) as nat)
        &&& patch_position(a, patch.field_name) == Some(n - 1) ==> match patch_position(
            b,
            patch.field_name,
        ) {
            Some(i) => equal_expressions(patch.insertions, b[i].insertions),
            None => false,
        }
    }
}

/// Whether every field that a patch of `b` follows is one that a patch of `a` follows.
pub open spec fn patches_cover(a: Seq<FieldPatchModel>, b: Seq<FieldPatchModel>) -> bool {
    forall|i: int| 0 <= i < b.len() ==> patch_position(a, (#[trigger] b[i]).field_name) is Some
}

/// Whether two lists of expressions are equal, position by position.
pub open spec fn equal_expressions(a: Seq<ExpressionModel>, b: Seq<ExpressionModel>) -> bool
    decreases a, 0nat,
{
    &&& a.len() == b.len()
    &&& a.len() > 0 ==> equal_expressions(a.drop_last(), b.drop_last()) && equal_expression(
        a.last(),
        b.last(),
    )
}

/// Whether two expressions are equal: they are the same, but that the patches after the fields of a
/// struct may stand in any order.
pub open spec fn equal_expression(a: ExpressionModel, b: ExpressionModel) -> bool
    decreases a, 0nat,
{
    match (a, b) {
        (ExpressionModel::Literal(v), ExpressionModel::Literal(w)) => v == w,
        (ExpressionModel::Column(c), ExpressionModel::Column(d)) => c == d,
        (ExpressionModel::Predicate(p), ExpressionModel::Predicate(q)) => equal_predicate(*p, *q),
        (ExpressionModel::Struct(s, m), ExpressionModel::Struct(t, n)) => equal_expressions(s, t)
            && match (m, n) {
            (Some(m), Some(n)) => equal_expression(*m, *n),
            (None, None) => true,
            _ => false,
        },
        (
            ExpressionModel::StructPatch {
                prepended_fields: s,
                field_patches: p,
                appended_fields: u,
            },
            ExpressionModel::StructPatch {
                prepended_fields: t,
                field_patches: q,
                appended_fields: v,
            },
        ) => equal_expressions(s, t) && patches_agree(p, q, p.len()) && patches_cover(p, q)
            && equal_expressions(u, v),
        (ExpressionModel::Unary(o, x), ExpressionModel::Unary(p, y)) => o == p && equal_expression(
            *x,
            *y,
        ),
        (ExpressionModel::Binary(o, w, x), ExpressionModel::Binary(p, y, z)) => o == p
            && equal_expression(*w, *y) && equal_expression(*x, *z),
        (ExpressionModel::Variadic(o, s), ExpressionModel::Variadic(p, t)) => o == p
            && equal_expressions(s, t),
        (ExpressionModel::Opaque(m, s), ExpressionModel::Opaque(n, t)) => m == n
            && equal_expressions(s, t),
        (ExpressionModel::Unknown(m), ExpressionModel::Unknown(n)) => m == n,
        (ExpressionModel::ParseJson(x, s), ExpressionModel::ParseJson(y, t)) => s == t
            && equal_expression(*x, *y),
        (ExpressionModel::MapToStruct(x), ExpressionModel::MapToStruct(y)) => equal_expression(
            *x,
            *y,
        ),
        _ => false,
    }
}

/// Whether two lists of predicates are equal, position by position.
pub open spec fn equal_predicates(a: Seq<PredicateModel>, b: Seq<PredicateModel>) -> bool
    decreases a, 0nat,
{
    &&& a.len() == b.len()
    &&& a.len() > 0 ==> equal_predicates(a.drop_last(), b.drop_last()) && equal_predicate(
        a.last(),
        b.last(),
    )
}

/// Whether two predicates are equal: they are the same, but that the patches after the fields of a
/// struct may stand in any order.
pub open spec fn equal_predicate(a: PredicateModel, b: PredicateModel) -> bool
    decreases a, 0nat,
{
    match (a, b) {
        (
            PredicateModel::BooleanExpression(x),
            PredicateModel::BooleanExpression(y),
        ) => equal_expression(x, y),
        (PredicateModel::Not(p), PredicateModel::Not(q)) => equal_predicate(*p, *q),
        (PredicateModel::Unary(o, x), PredicateModel::Unary(p, y)) => o == p && equal_expression(
            x,
            y,
        ),
        (PredicateModel::Binary(o, w, x), PredicateModel::Binary(p, y, z)) => o == p
            && equal_expression(w, y) && equal_expression(x, z),
        (PredicateModel::Junction(o, s), PredicateModel::Junction(p, t)) => o == p
            && equal_predicates(s, t),
        (PredicateModel::Opaque(m, s), PredicateModel::Opaque(n, t)) => m == n
            && equal_expressions(s, t),
        (PredicateModel::Unknown(m), PredicateModel::Unknown(n)) => m == n,
        _ => false,
    }
}

// ---------------------------------------------------------------------------
// Position by position
// ---------------------------------------------------------------------------
proof fn lemma_equal_expressions(a: Seq<ExpressionModel>, b: Seq<ExpressionModel>)
    requires
        a.len() == b.len(),
    ensures
        equal_expressions(a, b) <==> forall|i: int|
            0 <= i < a.len() ==> equal_expression(#[trigger] a[i], b[i]),
    decreases a.len(),
{
    if a.len() > 0 {
        let init = a.drop_last();
        lemma_equal_expressions(init, b.drop_last());
        if equal_expressions(a, b) {
            assert forall|i: int| 0 <= i < a.len() implies equal_expression(
                #[trigger] a[i],
                b[i],
            ) by {
                if i < init.len() {
                    assert(equal_expression(init[i], b.drop_last()[i]));
                }
            }
        }
        if forall|i: int| 0 <= i < a.len() ==> equal_expression(#[trigger] a[i], b[i]) {
            assert forall|i: int| 0 <= i < init.len() implies equal_expression(
                #[trigger] init[i],
                b.drop_last()[i],
            ) by {
                assert(equal_expression(a[i], b[i]));
            }
            assert(equal_expression(a[a.len() - 1], b[a.len() - 1]));
        }
    }
}

proof fn lemma_equal_predicates(a: Seq<PredicateModel>, b: Seq<PredicateModel>)
    requires
        a.len() == b.len(),
    ensures
        equal_predicates(a, b) <==> forall|i: int|
            0 <= i < a.len() ==> equal_predicate(#[trigger] a[i], b[i]),
    decreases a.len(),
{
    if a.len() > 0 {
        let init = a.drop_last();
        lemma_equal_predicates(init, b.drop_last());
        if equal_predicates(a, b) {
            assert forall|i: int| 0 <= i < a.len() implies equal_predicate(
                #[trigger] a[i],
                b[i],
            ) by {
                if i < init.len() {
                    assert(equal_predicate(init[i], b.drop_last()[i]));
                }
            }
        }
        if forall|i: int| 0 <= i < a.len() ==> equal_predicate(#[trigger] a[i], b[i]) {
            assert forall|i: int| 0 <= i < init.len() implies equal_predicate(
                #[trigger] init[i],
                b.drop_last()[i],
            ) by {
                assert(equal_predicate(a[i], b[i]));
            }
            assert(equal_predicate(a[a.len() - 1], b[a.len() - 1]));
        }
    }
}

/// Whether patch `i` of `a`, where it counts, inserts what the one of `b` after the same field
/// inserts.
spec fn patch_agrees(a: Seq<FieldPatchModel>, b: Seq<FieldPatchModel>, i: int) -> bool {
    patch_position(a, a[i].field_name) == Some(i) ==> match patch_position(b, a[i].field_name) {
        Some(j) => equal_expressions(a[i].insertions, b[j].insertions),
        None => false,
    }
}

proof fn lemma_patches_agree(a: Seq<FieldPatchModel>, b: Seq<FieldPatchModel>, n: nat)
    requires
        n <= a.len(),
    ensures
        patches_agree(a, b, n) <==> forall|i: int| 0 <= i < n ==> #[trigger] patch_agrees(a, b, i),
    decreases n,
{
    if n > 0 {
        lemma_patches_agree(a, b, (n - 1) as nat);
        assert(patches_agree(a, b, n) <==> patches_agree(a, b, (n - 1) as nat) && patch_agrees(
            a,
            b,
            n - 1,
        ));
    }
}

// ---------------------------------------------------------------------------
// Comparisons
// ---------------------------------------------------------------------------
fn same_bytes(a: &Vec<u8>, b: &Vec<u8>) -> (r: bool)
    ensures
        r == (a@ == b@),
{
    if a.len() != b.len() {
        return false;
    }
    let mut i: usize = 0;
    while i < a.len()
        invariant
            i <= a.len(),
            a.len() == b.len(),
            forall|j: int| 0 <= j < i ==> a@[j] == b@[j],
        decreases a.len() - i,
    {
        if a[i] != b[i] {
            return false;
        }
        i = i + 1;
    }
    assert(a@ =~= b@);
    true
}

fn same_scalar(a: &Scalar, b: &Scalar) -> (r: bool)
    ensures
        r == (a@ == b@),
{
    match (a, b) {
        (Scalar::Integer(a), Scalar::Integer(b)) => *a == *b,
        (Scalar::Long(a), Scalar::Long(b)) => *a == *b,
        (Scalar::Short(a), Scalar::Short(b)) => *a == *b,
        (Scalar::Byte(a), Scalar::Byte(b)) => *a == *b,
        (Scalar::FloatBits(a), Scalar::FloatBits(b)) => *a == *b,
        (Scalar::DoubleBits(a), Scalar::DoubleBits(b)) => *a == *b,
        (Scalar::String(a), Scalar::String(b)) => same_text(a.as_str(), b.as_str()),
        (Scalar::Boolean(a), Scalar::Boolean(b)) => *a == *b,
        (Scalar::Timestamp(a), Scalar::Timestamp(b)) => *a == *b,
        (Scalar::TimestampNtz(a), Scalar::TimestampNtz(b)) => *a == *b,
        (Scalar::Date(a), Scalar::Date(b)) => *a == *b,
        (Scalar::Binary(a), Scalar::Binary(b)) => same_bytes(a, b),
        (
            Scalar::Decimal { unscaled: a, precision: p, scale: s },
            Scalar::Decimal { unscaled: b, precision: q, scale: t },
        ) => *a == *b && *p == *q && *s == *t,
        (Scalar::Null(a), Scalar::Null(b)) => *a == *b,
        _ => false,
    }
}

fn same_schema(a: &StructType, b: &StructType) -> (r: bool)
    ensures
        r == (a@ == b@),
{
    *a == *b
}

fn compare_expressions(a: &Vec<Expression>, b: &Vec<Expression>) -> (r: bool)
    ensures
        r == equal_expressions(expressions_model(a@), expressions_model(b@)),
    decreases a, 0nat,
{
    proof {
        lemma_expressions_model(a@);
        lemma_expressions_model(b@);
    }
    if a.len() != b.len() {
        return false;
    }
    proof {
        lemma_equal_expressions(expressions_model(a@), expressions_model(b@));
    }
    let mut i: usize = 0;
    while i < a.len()
        invariant
            i <= a.len(),
            a.len() == b.len(),
            forall|j: int|
                0 <= j < i ==> equal_expression(
                    expression_model(#[trigger] a@[j]),
                    expression_model(b@[j]),
                ),
            expressions_model(a@).len() == a.len(),
            forall|j: int|
                0 <= j < a.len() ==> #[trigger] expressions_model(a@)[j] == expression_model(a@[j]),
            forall|j: int|
                0 <= j < b.len() ==> #[trigger] expressions_model(b@)[j] == expression_model(b@[j]),
            equal_expressions(expressions_model(a@), expressions_model(b@)) <==> forall|j: int|
                0 <= j < a.len() ==> equal_expression(
                    #[trigger] expressions_model(a@)[j],
                    expressions_model(b@)[j],
                ),
        decreases a.len() - i,
    {
        if !compare_expression(&a[i], &b[i]) {
            assert(!equal_expression(
                expressions_model(a@)[i as int],
                expressions_model(b@)[i as int],
            ));
            return false;
        }
        i = i + 1;
    }
    true
}

fn compare_predicates(a: &Vec<Predicate>, b: &Vec<Predicate>) -> (r: bool)
    ensures
        r == equal_predicates(predicates_model(a@), predicates_model(b@)),
    decreases a, 0nat,
{
    proof {
        lemma_predicates_model(a@);
        lemma_predicates_model(b@);
    }
    if a.len() != b.len() {
        return false;
    }
    proof {
        lemma_equal_predicates(predicates_model(a@), predicates_model(b@));
    }
    let mut i: usize = 0;
    while i < a.len()
        invariant
            i <= a.len(),
            a.len() == b.len(),
            forall|j: int|
                0 <= j < i ==> equal_predicate(
                    predicate_model(#[trigger] a@[j]),
                    predicate_model(b@[j]),
                ),
            predicates_model(a@).len() == a.len(),
            forall|j: int|
                0 <= j < a.len() ==> #[trigger] predicates_model(a@)[j] == predicate_model(a@[j]),
            forall|j: int|
                0 <= j < b.len() ==> #[trigger] predicates_model(b@)[j] == predicate_model(b@[j]),
            equal_predicates(predicates_model(a@), predicates_model(b@)) <==> forall|j: int|
                0 <= j < a.len() ==> equal_predicate(
                    #[trigger] predicates_model(a@)[j],
                    predicates_model(b@)[j],
                ),
        decreases a.len() - i,
    {
        if !compare_predicate(&a[i], &b[i]) {
            assert(!equal_predicate(
                predicates_model(a@)[i as int],
                predicates_model(b@)[i as int],
            ));
            return false;
        }
        i = i + 1;
    }
    true
}

fn find_patch(patches: &Vec<FieldPatch>, name: &str) -> (r: Option<usize>)
    ensures
        match r {
            Some(i) => i < patches.len() && patch_position(field_patches_model(patches@), name@)
                == Some(i as int),
            None => patch_position(field_patches_model(patches@), name@) is None,
        },
{
    let ghost model = field_patches_model(patches@);
    proof {
        lemma_field_patches_model(patches@);
    }
    let mut i: usize = patches.len();
    assert(model.take(i as int) =~= model);
    while i > 0
        invariant
            i <= patches.len(),
            model == field_patches_model(patches@),
            model.len() == patches.len(),
            forall|j: int|
                0 <= j < patches.len() ==> #[trigger] model[j] == field_patch_model(patches@[j]),
            patch_position(model, name@) == patch_position(model.take(i as int), name@),
        decreases i,
    {
        assert(model.take(i as int).last() == model[i - 1]);
        assert(model.take(i as int).drop_last() =~= model.take(i - 1));
        if same_text(patches[i - 1].field_name.as_str(), name) {
            return Some(i - 1);
        }
        i = i - 1;
    }
    None
}

fn covers_patches(a: &Vec<FieldPatch>, b: &Vec<FieldPatch>) -> (r: bool)
    ensures
        r == patches_cover(field_patches_model(a@), field_patches_model(b@)),
{
    let ghost model = field_patches_model(b@);
    proof {
        lemma_field_patches_model(b@);
    }
    let mut i: usize = 0;
    while i < b.len()
        invariant
            i <= b.len(),
            model == field_patches_model(b@),
            model.len() == b.len(),
            forall|j: int| 0 <= j < b.len() ==> #[trigger] model[j] == field_patch_model(b@[j]),
            forall|j: int|
                0 <= j < i ==> patch_position(
                    field_patches_model(a@),
                    (#[trigger] model[j]).field_name,
                ) is Some,
        decreases b.len() - i,
    {
        assert(model[i as int].field_name == b@[i as int].field_name@);
        if find_patch(a, b[i].field_name.as_str()).is_none() {
            return false;
        }
        i = i + 1;
    }
    true
}

fn compare_patches(a: &Vec<FieldPatch>, b: &Vec<FieldPatch>) -> (r: bool)
    ensures
        r == patches_agree(
            field_patches_model(a@),
            field_patches_model(b@),
            field_patches_model(a@).len(),
        ),
    decreases a, 0nat,
{
    let ghost x = field_patches_model(a@);
    let ghost y = field_patches_model(b@);
    proof {
        lemma_field_patches_model(a@);
        lemma_field_patches_model(b@);
        lemma_patches_agree(x, y, x.len());
    }
    let mut i: usize = 0;
    while i < a.len()
        invariant
            i <= a.len(),
            x == field_patches_model(a@),
            y == field_patches_model(b@),
            x.len() == a.len(),
            y.len() == b.len(),
            forall|j: int| 0 <= j < a.len() ==> #[trigger] x[j] == field_patch_model(a@[j]),
            forall|j: int| 0 <= j < b.len() ==> #[trigger] y[j] == field_patch_model(b@[j]),
            forall|j: int| 0 <= j < i ==> #[trigger] patch_agrees(x, y, j),
            patches_agree(x, y, x.len()) <==> forall|j: int|
                0 <= j < x.len() ==> #[trigger] patch_agrees(x, y, j),
        decreases a.len() - i,
    {
        assert(x[i as int].field_name == a@[i as int].field_name@);
        let name = a[i].field_name.as_str();
        let counts: bool = match find_patch(a, name) {
            Some(j) => j == i,
            None => false,
        };
        if counts {
            let agrees: bool = match find_patch(b, name) {
                Some(j) => {
                    assert(y[j as int] == field_patch_model(b@[j as int]));
                    compare_expressions(&a[i].insertions, &b[j].insertions)
                },
                None => false,
            };
            if !agrees {
                assert(!patch_agrees(x, y, i as int));
                return false;
            }
        }
        assert(patch_agrees(x, y, i as int));
        i = i + 1;
    }
    true
}

fn compare_patch(a: &StructPatch, b: &StructPatch) -> (r: bool)
    ensures
        r == equal_expression(
            expression_model(Expression::StructPatch(*a)),
            expression_model(Expression::StructPatch(*b)),
        ),
    decreases a, 0nat,
{
    compare_expressions(&a.prepended_fields, &b.prepended_fields) && compare_patches(
        &a.field_patches,
        &b.field_patches,
    ) && covers_patches(&a.field_patches, &b.field_patches) && compare_expressions(
        &a.appended_fields,
        &b.appended_fields,
    )
}

fn compare_expression(a: &Expression, b: &Expression) -> (r: bool)
    ensures
        r == equal_expression(expression_model(*a), expression_model(*b)),
    decreases a, 0nat,
{
    match (a, b) {
        (Expression::Literal(v), Expression::Literal(w)) => same_scalar(v, w),
        (Expression::Column(c), Expression::Column(d)) => same_texts(&c.path, &d.path),
        (Expression::Predicate(p), Expression::Predicate(q)) => compare_predicate(p, q),
        (Expression::Struct(s, m), Expression::Struct(t, n)) => compare_expressions(s, t)
            && match (m, n) {
            (Some(m), Some(n)) => compare_expression(m, n),
            (None, None) => true,
            _ => false,
        },
        (Expression::StructPatch(p), Expression::StructPatch(q)) => compare_patch(p, q),
        (Expression::Unary(o, x), Expression::Unary(p, y)) => *o == *p && compare_expression(x, y),
        (Expression::Binary(o, w, x), Expression::Binary(p, y, z)) => *o == *p
            && compare_expression(w, y) && compare_expression(x, z),
        (Expression::Variadic(o, s), Expression::Variadic(p, t)) => *o == *p
            && compare_expressions(s, t),
        (Expression::Opaque(m, s), Expression::Opaque(n, t)) => same_text(m.as_str(), n.as_str())
            && compare_expressions(s, t),
        (Expression::Unknown(m), Expression::Unknown(n)) => same_text(m.as_str(), n.as_str()),
        (Expression::ParseJson(x, s), Expression::ParseJson(y, t)) => same_schema(s, t)
            && compare_expression(x, y),
        (Expression::MapToStruct(x), Expression::MapToStruct(y)) => compare_expression(x, y),
        _ => false,
    }
}

fn compare_predicate(a: &Predicate, b: &Predicate) -> (r: bool)
    ensures
        r == equal_predicate(predicate_model(*a), predicate_model(*b)),
    decreases a, 0nat,
{
    match (a, b) {
        (Predicate::BooleanExpression(x), Predicate::BooleanExpression(y)) => compare_expression(
            x,
            y,
        ),
        (Predicate::Not(p), Predicate::Not(q)) => compare_predicate(p, q),
        (Predicate::Unary(o, x), Predicate::Unary(p, y)) => *o == *p && compare_expression(x, y),
        (Predicate::Binary(o, w, x), Predicate::Binary(p, y, z)) => *o == *p && compare_expression(
            w,
            y,
        ) && compare_expression(x, z),
        (Predicate::Junction(o, s), Predicate::Junction(p, t)) => *o == *p && compare_predicates(
            s,
            t,
        ),
        (Predicate::Opaque(m, s), Predicate::Opaque(n, t)) => same_text(m.as_str(), n.as_str())
            && compare_expressions(s, t),
        (Predicate::Unknown(m), Predicate::Unknown(n)) => same_text(m.as_str(), n.as_str()),
        _ => false,
    }
}

/// Expressions are equal whatever the order of the patches in them.
impl PartialEq for Expression {
    fn eq(&self, other: &Self) -> (r: bool) {
        compare_expression(self, other)
    }
}

impl vstd::std_specs::cmp::PartialEqSpecImpl for Expression {
    open spec fn obeys_eq_spec() -> bool {
        true
    }

    open spec fn eq_spec(&self, other: &Self) -> bool {
        equal_expression(self@, other@)
    }
}

/// Predicates are equal whatever the order of the patches in them.
impl PartialEq for Predicate {
    fn eq(&self, other: &Self) -> (r: bool) {
        compare_predicate(self, other)
    }
}

impl vstd::std_specs::cmp::PartialEqSpecImpl for Predicate {
    open spec fn obeys_eq_spec() -> bool {
        true
    }

    open spec fn eq_spec(&self, other: &Self) -> bool {
        equal_predicate(self@, other@)
    }
}

/// The patches after the fields of a struct are equal by field name, whatever their order.
impl PartialEq for StructPatch {
    fn eq(&self, other: &Self) -> (r: bool) {
        compare_patch(self, other)
    }
}

impl vstd::std_specs::cmp::PartialEqSpecImpl for StructPatch {
    open spec fn obeys_eq_spec() -> bool {
        true
    }

    open spec fn eq_spec(&self, other: &Self) -> bool {
        equal_expression(
            expression_model(Expression::StructPatch(*self)),
            expression_model(Expression::StructPatch(*other)),
        )
    }
}

impl PartialEq for FieldPatch {
    fn eq(&self, other: &Self) -> (r: bool) {
        same_text(self.field_name.as_str(), other.field_name.as_str()) && compare_expressions(
            &self.insertions,
            &other.insertions,
        )
    }
}

impl vstd::std_specs::cmp::PartialEqSpecImpl for FieldPatch {
    open spec fn obeys_eq_spec() -> bool {
        true
    }

    open spec fn eq_spec(&self, other: &Self) -> bool {
        self.field_name@ == other.field_name@ && equal_expressions(
            expressions_model(self.insertions@),
            expressions_model(other.insertions@),
        )
    }
}

// ---------------------------------------------------------------------------
// Laws
// ---------------------------------------------------------------------------
/// The patch that counts stands after the field, and there is one wherever a patch stands after it.
proof fn lemma_patch_position(patches: Seq<FieldPatchModel>, name: Seq<char>)
    ensures
        match patch_position(patches, name) {
            Some(i) => 0 <= i < patches.len() && patches[i].field_name == name,
            None => forall|i: int|
                0 <= i < patches.len() ==> (#[trigger] patches[i]).field_name != name,
        },
    decreases patches.len(),
{
    if patches.len() > 0 {
        let init = patches.drop_last();
        lemma_patch_position(init, name);
        assert forall|i: int|
            0 <= i < patches.len() && patch_position(patches, name) is None implies (
        #[trigger] patches[i]).field_name != name by {
            if i < init.len() {
                assert(init[i].field_name != name);
            }
        }
    }
}

proof fn lemma_patches_agree_with_themselves(patches: Seq<FieldPatchModel>, n: nat)
    requires
        n <= patches.len(),
    ensures
        patches_agree(patches, patches, n),
    decreases patches, n,
{
    if n > 0 {
        lemma_patches_agree_with_themselves(patches, (n - 1) as nat);
        lemma_expressions_equal_themselves(patches[n - 1].insertions);
    }
}

proof fn lemma_expressions_equal_themselves(s: Seq<ExpressionModel>)
    ensures
        equal_expressions(s, s),
    decreases s, 0nat,
{
    if s.len() > 0 {
        lemma_expressions_equal_themselves(s.drop_last());
        law_expression_equals_itself(s.last());
    }
}

proof fn lemma_predicates_equal_themselves(s: Seq<PredicateModel>)
    ensures
        equal_predicates(s, s),
    decreases s, 0nat,
{
    if s.len() > 0 {
        lemma_predicates_equal_themselves(s.drop_last());
        law_predicate_equals_itself(s.last());
    }
}

/// An expression is equal to itself, and so to every copy of it.
pub proof fn law_expression_equals_itself(e: ExpressionModel)
    ensures
        equal_expression(e, e),
    decreases e, 0nat,
{
    match e {
        ExpressionModel::Predicate(p) => {
            law_predicate_equals_itself(*p);
        },
        ExpressionModel::Struct(fields, nullability) => {
            lemma_expressions_equal_themselves(fields);
            if let Some(n) = nullability {
                law_expression_equals_itself(*n);
            }
        },
        ExpressionModel::StructPatch { prepended_fields, field_patches, appended_fields } => {
            lemma_expressions_equal_themselves(prepended_fields);
            lemma_patches_agree_with_themselves(field_patches, field_patches.len());
            assert forall|i: int| 0 <= i < field_patches.len() implies patch_position(
                field_patches,
                (#[trigger] field_patches[i]).field_name,
            ) is Some by {
                lemma_patch_position(field_patches, field_patches[i].field_name);
            }
            lemma_expressions_equal_themselves(appended_fields);
        },
        ExpressionModel::Unary(_, x) => {
            law_expression_equals_itself(*x);
        },
        ExpressionModel::Binary(_, x, y) => {
            law_expression_equals_itself(*x);
            law_expression_equals_itself(*y);
        },
        ExpressionModel::Variadic(_, s) => {
            lemma_expressions_equal_themselves(s);
        },
        ExpressionModel::Opaque(_, s) => {
            lemma_expressions_equal_themselves(s);
        },
        ExpressionModel::ParseJson(x, _) => {
            law_expression_equals_itself(*x);
        },
        ExpressionModel::MapToStruct(x) => {
            law_expression_equals_itself(*x);
        },
        _ => {},
    }
}

/// A predicate is equal to itself, and so to every copy of it.
pub proof fn law_predicate_equals_itself(p: PredicateModel)
    ensures
        equal_predicate(p, p),
    decreases p, 0nat,
{
    match p {
        PredicateModel::BooleanExpression(x) => {
            law_expression_equals_itself(x);
        },
        PredicateModel::Not(q) => {
            law_predicate_equals_itself(*q);
        },
        PredicateModel::Unary(_, x) => {
            law_expression_equals_itself(x);
        },
        PredicateModel::Binary(_, x, y) => {
            law_expression_equals_itself(x);
            law_expression_equals_itself(y);
        },
        PredicateModel::Junction(_, s) => {
            lemma_predicates_equal_themselves(s);
        },
        PredicateModel::Opaque(_, s) => {
            lemma_expressions_equal_themselves(s);
        },
        _ => {},
    }
}

/// Whether there is at most one patch after each field.
pub open spec fn one_patch_for_each_field(patches: Seq<FieldPatchModel>) -> bool {
    forall|i: int, j: int|
        0 <= i < j < patches.len() ==> (#[trigger] patches[i]).field_name != (
        #[trigger] patches[j]).field_name
}

/// The order of the patches in a struct does not matter: two that hold the same ones, at most one
/// after each field, are equal.
pub proof fn law_patch_order_does_not_matter(
    prepended_fields: Seq<ExpressionModel>,
    a: Seq<FieldPatchModel>,
    b: Seq<FieldPatchModel>,
    appended_fields: Seq<ExpressionModel>,
)
    requires
        one_patch_for_each_field(a),
        one_patch_for_each_field(b),
        forall|patch: FieldPatchModel| a.contains(patch) <==> b.contains(patch),
    ensures
        equal_expression(
            (ExpressionModel::StructPatch { prepended_fields, field_patches: a, appended_fields }),
            (ExpressionModel::StructPatch { prepended_fields, field_patches: b, appended_fields }),
        ),
{
    lemma_expressions_equal_themselves(prepended_fields);
    lemma_expressions_equal_themselves(appended_fields);
    assert forall|i: int| 0 <= i < a.len() implies #[trigger] patch_agrees(a, b, i) by {
        assert(b.contains(a[i]));
        let j = choose|j: int| 0 <= j < b.len() && b[j] == a[i];
        lemma_patch_position(b, a[i].field_name);
        assert(b[j].field_name == a[i].field_name);
        assert(patch_position(b, a[i].field_name) == Some(j));
        lemma_expressions_equal_themselves(a[i].insertions);
    }
    lemma_patches_agree(a, b, a.len());
    assert forall|i: int| 0 <= i < b.len() implies patch_position(
        a,
        (#[trigger] b[i]).field_name,
    ) is Some by {
        assert(a.contains(b[i]));
        let j = choose|j: int| 0 <= j < a.len() && a[j] == b[i];
        assert(a[j].field_name == b[i].field_name);
        lemma_patch_position(a, b[i].field_name);
    }
}

/// Whether no struct is patched anywhere in an expression.
pub open spec fn has_no_patch(e: ExpressionModel) -> bool
    decreases e,
{
    match e {
        ExpressionModel::Predicate(p) => predicate_has_no_patch(*p),
        ExpressionModel::Struct(fields, nullability) => {
            &&& forall|i: int| 0 <= i < fields.len() ==> has_no_patch(#[trigger] fields[i])
            &&& nullability matches Some(n) ==> has_no_patch(*n)
        },
        ExpressionModel::StructPatch { .. } => false,
        ExpressionModel::Unary(_, x) => has_no_patch(*x),
        ExpressionModel::Binary(_, l, r) => has_no_patch(*l) && has_no_patch(*r),
        ExpressionModel::Variadic(_, es) => forall|i: int|
            0 <= i < es.len() ==> has_no_patch(#[trigger] es[i]),
        ExpressionModel::Opaque(_, es) => forall|i: int|
            0 <= i < es.len() ==> has_no_patch(#[trigger] es[i]),
        ExpressionModel::ParseJson(x, _) => has_no_patch(*x),
        ExpressionModel::MapToStruct(x) => has_no_patch(*x),
        _ => true,
    }
}

/// Whether no struct is patched anywhere in a predicate.
pub open spec fn predicate_has_no_patch(p: PredicateModel) -> bool
    decreases p,
{
    match p {
        PredicateModel::BooleanExpression(e) => has_no_patch(e),
        PredicateModel::Not(q) => predicate_has_no_patch(*q),
        PredicateModel::Unary(_, e) => has_no_patch(e),
        PredicateModel::Binary(_, l, r) => has_no_patch(l) && has_no_patch(r),
        PredicateModel::Junction(_, ps) => forall|i: int|
            0 <= i < ps.len() ==> predicate_has_no_patch(#[trigger] ps[i]),
        PredicateModel::Opaque(_, es) => forall|i: int|
            0 <= i < es.len() ==> has_no_patch(#[trigger] es[i]),
        PredicateModel::Unknown(_) => true,
    }
}

/// Expressions without a patched struct are equal only where they are the same.
pub proof fn law_equal_expressions_are_the_same(a: ExpressionModel, b: ExpressionModel)
    requires
        has_no_patch(a),
        equal_expression(a, b),
    ensures
        a == b,
    decreases a,
{
    match (a, b) {
        (ExpressionModel::Predicate(p), ExpressionModel::Predicate(q)) => {
            law_equal_predicates_are_the_same(*p, *q);
        },
        (ExpressionModel::Struct(s, m), ExpressionModel::Struct(t, n)) => {
            lemma_equal_lists_are_the_same(s, t);
            if let (Some(m), Some(n)) = (m, n) {
                law_equal_expressions_are_the_same(*m, *n);
            }
        },
        (ExpressionModel::Unary(_, x), ExpressionModel::Unary(_, y)) => {
            law_equal_expressions_are_the_same(*x, *y);
        },
        (ExpressionModel::Binary(_, w, x), ExpressionModel::Binary(_, y, z)) => {
            law_equal_expressions_are_the_same(*w, *y);
            law_equal_expressions_are_the_same(*x, *z);
        },
        (ExpressionModel::Variadic(_, s), ExpressionModel::Variadic(_, t)) => {
            lemma_equal_lists_are_the_same(s, t);
        },
        (ExpressionModel::Opaque(_, s), ExpressionModel::Opaque(_, t)) => {
            lemma_equal_lists_are_the_same(s, t);
        },
        (ExpressionModel::ParseJson(x, _), ExpressionModel::ParseJson(y, _)) => {
            law_equal_expressions_are_the_same(*x, *y);
        },
        (ExpressionModel::MapToStruct(x), ExpressionModel::MapToStruct(y)) => {
            law_equal_expressions_are_the_same(*x, *y);
        },
        _ => {},
    }
}

proof fn lemma_equal_lists_are_the_same(s: Seq<ExpressionModel>, t: Seq<ExpressionModel>)
    requires
        forall|i: int| 0 <= i < s.len() ==> has_no_patch(#[trigger] s[i]),
        equal_expressions(s, t),
    ensures
        s == t,
    decreases s,
{
    if s.len() > 0 {
        let init = s.drop_last();
        assert forall|i: int| 0 <= i < init.len() implies has_no_patch(#[trigger] init[i]) by {
            assert(init[i] == s[i]);
        }
        lemma_equal_lists_are_the_same(init, t.drop_last());
        assert(has_no_patch(s[s.len() - 1]));
        law_equal_expressions_are_the_same(s.last(), t.last());
        assert(s =~= init.push(s.last()));
        assert(t =~= t.drop_last().push(t.last()));
    } else {
        assert(s =~= t);
    }
}

/// Predicates without a patched struct are equal only where they are the same.
pub proof fn law_equal_predicates_are_the_same(p: PredicateModel, q: PredicateModel)
    requires
        predicate_has_no_patch(p),
        equal_predicate(p, q),
    ensures
        p == q,
    decreases p,
{
    match (p, q) {
        (PredicateModel::BooleanExpression(x), PredicateModel::BooleanExpression(y)) => {
            law_equal_expressions_are_the_same(x, y);
        },
        (PredicateModel::Not(a), PredicateModel::Not(b)) => {
            law_equal_predicates_are_the_same(*a, *b);
        },
        (PredicateModel::Unary(_, x), PredicateModel::Unary(_, y)) => {
            law_equal_expressions_are_the_same(x, y);
        },
        (PredicateModel::Binary(_, w, x), PredicateModel::Binary(_, y, z)) => {
            law_equal_expressions_are_the_same(w, y);
            law_equal_expressions_are_the_same(x, z);
        },
        (PredicateModel::Junction(_, s), PredicateModel::Junction(_, t)) => {
            lemma_equal_predicate_lists_are_the_same(s, t);
        },
        (PredicateModel::Opaque(_, s), PredicateModel::Opaque(_, t)) => {
            lemma_equal_lists_are_the_same(s, t);
        },
        _ => {},
    }
}

proof fn lemma_equal_predicate_lists_are_the_same(s: Seq<PredicateModel>, t: Seq<PredicateModel>)
    requires
        forall|i: int| 0 <= i < s.len() ==> predicate_has_no_patch(#[trigger] s[i]),
        equal_predicates(s, t),
    ensures
        s == t,
    decreases s,
{
    if s.len() > 0 {
        let init = s.drop_last();
        assert forall|i: int| 0 <= i < init.len() implies predicate_has_no_patch(
            #[trigger] init[i],
        ) by {
            assert(init[i] == s[i]);
        }
        lemma_equal_predicate_lists_are_the_same(init, t.drop_last());
        assert(predicate_has_no_patch(s[s.len() - 1]));
        law_equal_predicates_are_the_same(s.last(), t.last());
        assert(s =~= init.push(s.last()));
        assert(t =~= t.drop_last().push(t.last()));
    } else {
        assert(s =~= t);
    }
}

/// Patched structs are equal only where they insert equal fields in the same places: before and after
/// all fields in the same order, and after each field the same.
pub proof fn law_equal_patches_insert_the_same(
    a: Seq<ExpressionModel>,
    p: Seq<FieldPatchModel>,
    u: Seq<ExpressionModel>,
    b: Seq<ExpressionModel>,
    q: Seq<FieldPatchModel>,
    v: Seq<ExpressionModel>,
    i: int,
)
    requires
        equal_expression(
            (ExpressionModel::StructPatch {
                prepended_fields: a,
                field_patches: p,
                appended_fields: u,
            }),
            (ExpressionModel::StructPatch {
                prepended_fields: b,
                field_patches: q,
                appended_fields: v,
            }),
        ),
        one_patch_for_each_field(p),
        one_patch_for_each_field(q),
    ensures
        equal_expressions(a, b),
        equal_expressions(u, v),
        0 <= i < p.len() ==> exists|j: int|
            0 <= j < q.len() && (#[trigger] q[j]).field_name == p[i].field_name
                && equal_expressions(p[i].insertions, q[j].insertions),
        0 <= i < q.len() ==> exists|j: int|
            0 <= j < p.len() && (#[trigger] p[j]).field_name == q[i].field_name
                && equal_expressions(p[j].insertions, q[i].insertions),
{
    lemma_patches_agree(p, q, p.len());
    if 0 <= i < p.len() {
        lemma_only_patch(p, i);
        assert(patch_agrees(p, q, i));
        lemma_patch_position(q, p[i].field_name);
    }
    if 0 <= i < q.len() {
        assert(patch_position(p, q[i].field_name) is Some);
        lemma_patch_position(p, q[i].field_name);
        let j = patch_position(p, q[i].field_name)->0;
        assert(patch_agrees(p, q, j));
        lemma_only_patch(p, j);
        lemma_only_patch(q, i);
        assert(p[j].field_name == q[i].field_name);
    }
}

proof fn lemma_only_patch(patches: Seq<FieldPatchModel>, i: int)
    requires
        one_patch_for_each_field(patches),
        0 <= i < patches.len(),
    ensures
        patch_position(patches, patches[i].field_name) == Some(i),
{
    lemma_patch_position(patches, patches[i].field_name);
    let j = patch_position(patches, patches[i].field_name)->0;
    if j < i {
        assert(patches[j].field_name != patches[i].field_name);
    } else if i < j {
        assert(patches[i].field_name != patches[j].field_name);
    }
}

} // verus!
