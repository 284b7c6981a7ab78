//! Expressions and predicates over the columns of a table.
use std::sync::Arc;
use vstd::prelude::*;

use crate::schema::{DataType, DataTypeModel, FieldModel, SchemaRef};
use crate::text::{same_text, texts};

verus! {

/// The name of a column: the fields that lead to it, outermost first.
#[derive(Debug, PartialEq, Eq)]
pub struct ColumnName {
    pub path: Vec<String>,
}

/// The content of a [`ColumnName`].
pub type Path = Seq<Seq<char>>;

/// A literal value. Floating-point values are kept as their bits.
#[derive(Debug, PartialEq, Eq)]
pub enum Scalar {
    Integer(i32),
    Long(i64),
    Short(i16),
    Byte(i8),
    FloatBits(u32),
    DoubleBits(u64),
    String(String),
    Boolean(bool),
    Timestamp(i64),
    TimestampNtz(i64),
    Date(i32),
    Binary(Vec<u8>),
    Decimal { unscaled: i128, precision: u8, scale: u8 },
    Null(DataType),
}

#[derive(Debug, Clone, Copy, PartialEq, Eq, Structural)]
pub enum UnaryExpressionOp {
    ToJson,
}

#[derive(Debug, Clone, Copy, PartialEq, Eq, Structural)]
pub enum BinaryExpressionOp {
    Plus,
    Minus,
    Multiply,
    Divide,
}

#[derive(Debug, Clone, Copy, PartialEq, Eq, Structural)]
pub enum VariadicExpressionOp {
    Coalesce,
}

#[derive(Debug, Clone, Copy, PartialEq, Eq, Structural)]
pub enum UnaryPredicateOp {
    IsNull,
}

#[derive(Debug, Clone, Copy, PartialEq, Eq, Structural)]
pub enum BinaryPredicateOp {
    LessThan,
    GreaterThan,
    Equal,
    Distinct,
    In,
}

#[derive(Debug, Clone, Copy, PartialEq, Eq, Structural)]
pub enum JunctionPredicateOp {
    And,
    Or,
}

/// What a [`StructPatch`] inserts after one field of its input.
#[derive(Debug, Eq)]
pub struct FieldPatch {
    pub field_name: String,
    pub insertions: Vec<Expression>,
}

/// A struct made from another one by inserting fields.
#[derive(Debug, Eq)]
pub struct StructPatch {
    pub prepended_fields: Vec<Expression>,
    /// At most one for each field of the input, in no particular order.
    pub field_patches: Vec<FieldPatch>,
    pub appended_fields: Vec<Expression>,
}

/// An expression over the columns of a row.
#[derive(Debug, Eq)]
pub enum Expression {
    Literal(Scalar),
    Column(ColumnName),
    Predicate(Box<Predicate>),
    /// The fields of a struct, and an expression that decides whether it is null.
    Struct(Vec<Expression>, Option<Box<Expression>>),
    StructPatch(StructPatch),
    Unary(UnaryExpressionOp, Box<Expression>),
    Binary(BinaryExpressionOp, Box<Expression>, Box<Expression>),
    Variadic(VariadicExpressionOp, Vec<Expression>),
    /// An operation that only the engine knows, by name.
    Opaque(String, Vec<Expression>),
    Unknown(String),
    /// JSON text parsed as the given schema.
    ParseJson(Box<Expression>, SchemaRef),
    /// A map turned into a struct.
    MapToStruct(Box<Expression>),
}

/// An expression that is true, false or null.
#[derive(Debug, Eq)]
pub enum Predicate {
    BooleanExpression(Expression),
    Not(Box<Predicate>),
    Unary(UnaryPredicateOp, Expression),
    Binary(BinaryPredicateOp, Expression, Expression),
    Junction(JunctionPredicateOp, Vec<Predicate>),
    /// An operation that only the engine knows, by name.
    Opaque(String, Vec<Expression>),
    Unknown(String),
}

/// A shared predicate.
pub type PredicateRef = Arc<Predicate>;

// ---------------------------------------------------------------------------
// Models
// ---------------------------------------------------------------------------
/// The content of a [`Scalar`].
pub enum ScalarModel {
    Integer(i32),
    Long(i64),
    Short(i16),
    Byte(i8),
    FloatBits(u32),
    DoubleBits(u64),
    String(Seq<char>),
    Boolean(bool),
    Timestamp(i64),
    TimestampNtz(i64),
    Date(i32),
    Binary(Seq<u8>),
    Decimal { unscaled: i128, precision: u8, scale: u8 },
    Null(DataTypeModel),
}

/// The content of a [`FieldPatch`].
pub struct FieldPatchModel {
    pub field_name: Seq<char>,
    pub insertions: Seq<ExpressionModel>,
}

/// The content of an [`Expression`].
pub enum ExpressionModel {
    Literal(ScalarModel),
    Column(Path),
    Predicate(Box<PredicateModel>),
    Struct(Seq<ExpressionModel>, Option<Box<ExpressionModel>>),
    StructPatch {
        prepended_fields: Seq<ExpressionModel>,
        field_patches: Seq<FieldPatchModel>,
        appended_fields: Seq<ExpressionModel>,
    },
    Unary(UnaryExpressionOp, Box<ExpressionModel>),
    Binary(BinaryExpressionOp, Box<ExpressionModel>, Box<ExpressionModel>),
    Variadic(VariadicExpressionOp, Seq<ExpressionModel>),
    Opaque(Seq<char>, Seq<ExpressionModel>),
    Unknown(Seq<char>),
    ParseJson(Box<ExpressionModel>, Seq<FieldModel>),
    MapToStruct(Box<ExpressionModel>),
}

/// The content of a [`Predicate`].
pub enum PredicateModel {
    BooleanExpression(ExpressionModel),
    Not(Box<PredicateModel>),
    Unary(UnaryPredicateOp, ExpressionModel),
    Binary(BinaryPredicateOp, ExpressionModel, ExpressionModel),
    Junction(JunctionPredicateOp, Seq<PredicateModel>),
    Opaque(Seq<char>, Seq<ExpressionModel>),
    Unknown(Seq<char>),
}

impl View for ColumnName {
    type V = Path;

    open spec fn view(&self) -> Path {
        texts(self.path@)
    }
}

impl View for Scalar {
    type V = ScalarModel;

    open spec fn view(&self) -> ScalarModel {
        match *self {
            Scalar::Integer(v) => ScalarModel::Integer(v),
            Scalar::Long(v) => ScalarModel::Long(v),
            Scalar::Short(v) => ScalarModel::Short(v),
            Scalar::Byte(v) => ScalarModel::Byte(v),
            Scalar::FloatBits(v) => ScalarModel::FloatBits(v),
            Scalar::DoubleBits(v) => ScalarModel::DoubleBits(v),
            Scalar::String(v) => ScalarModel::String(v@),
            Scalar::Boolean(v) => ScalarModel::Boolean(v),
            Scalar::Timestamp(v) => ScalarModel::Timestamp(v),
            Scalar::TimestampNtz(v) => ScalarModel::TimestampNtz(v),
            Scalar::Date(v) => ScalarModel::Date(v),
            Scalar::Binary(v) => ScalarModel::Binary(v@),
            Scalar::Decimal { unscaled, precision, scale } => ScalarModel::Decimal {
                unscaled,
                precision,
                scale,
            },
            Scalar::Null(t) => ScalarModel::Null(t@),
        }
    }
}

/// The content of an expression.
pub open spec fn expression_model(e: Expression) -> ExpressionModel
    decreases e,
{
    match e {
        Expression::Literal(v) => ExpressionModel::Literal(v@),
        Expression::Column(c) => ExpressionModel::Column(c@),
        Expression::Predicate(p) => ExpressionModel::Predicate(Box::new(predicate_model(*p))),
        Expression::Struct(fields, nullability) => ExpressionModel::Struct(
            expressions_model(fields@),
            match nullability {
                Some(n) => Some(Box::new(expression_model(*n))),
                None => None,
            },
        ),
        Expression::StructPatch(patch) => ExpressionModel::StructPatch {
            prepended_fields: expressions_model(patch.prepended_fields@),
            field_patches: field_patches_model(patch.field_patches@),
            appended_fields: expressions_model(patch.appended_fields@),
        },
        Expression::Unary(op, e) => ExpressionModel::Unary(op, Box::new(expression_model(*e))),
        Expression::Binary(op, l, r) => ExpressionModel::Binary(
            op,
            Box::new(expression_model(*l)),
            Box::new(expression_model(*r)),
        ),
        Expression::Variadic(op, es) => ExpressionModel::Variadic(op, expressions_model(es@)),
        Expression::Opaque(name, es) => ExpressionModel::Opaque(name@, expressions_model(es@)),
        Expression::Unknown(name) => ExpressionModel::Unknown(name@),
        Expression::ParseJson(e, schema) => ExpressionModel::ParseJson(
            Box::new(expression_model(*e)),
            schema@,
        ),
        Expression::MapToStruct(e) => ExpressionModel::MapToStruct(Box::new(expression_model(*e))),
    }
}

/// The contents of a list of expressions.
pub open spec fn expressions_model(s: Seq<Expression>) -> Seq<ExpressionModel>
    decreases s,
{
    if s.len() == 0 {
        Seq::empty()
    } else {
        expressions_model(s.drop_last()).push(expression_model(s.last()))
    }
}

/// The content of a field patch.
pub open spec fn field_patch_model(p: FieldPatch) -> FieldPatchModel
    decreases p,
{
    FieldPatchModel {
        field_name: p.field_name@,
        insertions: expressions_model(p.insertions@),
    }
}

/// The contents of a list of field patches.
pub open spec fn field_patches_model(s: Seq<FieldPatch>) -> Seq<FieldPatchModel>
    decreases s,
{
    if s.len() == 0 {
        Seq::empty()
    } else {
        field_patches_model(s.drop_last()).push(field_patch_model(s.last()))
    }
}

/// The content of a predicate.
pub open spec fn predicate_model(p: Predicate) -> PredicateModel
    decreases p,
{
    match p {
        Predicate::BooleanExpression(e) => PredicateModel::BooleanExpression(expression_model(e)),
        Predicate::Not(p) => PredicateModel::Not(Box::new(predicate_model(*p))),
        Predicate::Unary(op, e) => PredicateModel::Unary(op, expression_model(e)),
        Predicate::Binary(op, l, r) => PredicateModel::Binary(
            op,
            expression_model(l),
            expression_model(r),
        ),
        Predicate::Junction(op, ps) => PredicateModel::Junction(op, predicates_model(ps@)),
        Predicate::Opaque(name, es) => PredicateModel::Opaque(name@, expressions_model(es@)),
        Predicate::Unknown(name) => PredicateModel::Unknown(name@),
    }
}

/// The contents of a list of predicates.
pub open spec fn predicates_model(s: Seq<Predicate>) -> Seq<PredicateModel>
    decreases s,
{
    if s.len() == 0 {
        Seq::empty()
    } else {
        predicates_model(s.drop_last()).push(predicate_model(s.last()))
    }
}

impl View for Expression {
    type V = ExpressionModel;

    open spec fn view(&self) -> ExpressionModel {
        expression_model(*self)
    }
}

impl View for Predicate {
    type V = PredicateModel;

    open spec fn view(&self) -> PredicateModel {
        predicate_model(*self)
    }
}

/// A list of expressions and its contents agree position by position.
pub proof fn lemma_expressions_model(s: Seq<Expression>)
    ensures
        expressions_model(s).len() == s.len(),
        forall|i: int|
            0 <= i < s.len() ==> #[trigger] expressions_model(s)[i] == expression_model(s[i]),
    decreases s.len(),
{
    if s.len() > 0 {
        lemma_expressions_model(s.drop_last());
    }
}

/// A list of predicates and its contents agree position by position.
pub proof fn lemma_predicates_model(s: Seq<Predicate>)
    ensures
        predicates_model(s).len() == s.len(),
        forall|i: int|
            0 <= i < s.len() ==> #[trigger] predicates_model(s)[i] == predicate_model(s[i]),
    decreases s.len(),
{
    if s.len() > 0 {
        lemma_predicates_model(s.drop_last());
    }
}

/// A list of field patches and its contents agree position by position.
pub proof fn lemma_field_patches_model(s: Seq<FieldPatch>)
    ensures
        field_patches_model(s).len() == s.len(),
        forall|i: int|
            0 <= i < s.len() ==> #[trigger] field_patches_model(s)[i] == field_patch_model(s[i]),
    decreases s.len(),
{
    if s.len() > 0 {
        lemma_field_patches_model(s.drop_last());
    }
}

/// Appending to a list of predicates appends to its contents.
pub proof fn lemma_predicates_model_push(s: Seq<Predicate>, p: Predicate)
    ensures
        predicates_model(s.push(p)) == predicates_model(s).push(predicate_model(p)),
{
    assert(s.push(p).drop_last() =~= s);
}

/// Appending to a list of expressions appends to its contents.
pub proof fn lemma_expressions_model_push(s: Seq<Expression>, e: Expression)
    ensures
        expressions_model(s.push(e)) == expressions_model(s).push(expression_model(e)),
{
    assert(s.push(e).drop_last() =~= s);
}

/// Appending to a list of field patches appends to its contents.
pub proof fn lemma_field_patches_model_push(s: Seq<FieldPatch>, p: FieldPatch)
    ensures
        field_patches_model(s.push(p)) == field_patches_model(s).push(field_patch_model(p)),
{
    assert(s.push(p).drop_last() =~= s);
}

// ---------------------------------------------------------------------------
// Columns and literals
// ---------------------------------------------------------------------------
/// The contents of a list of column names.
pub open spec fn paths(v: Seq<ColumnName>) -> Seq<Path> {
    v.map_values(|c: ColumnName| c@)
}

impl ColumnName {
    pub fn new(path: Vec<String>) -> (r: Self)
        ensures
            r@ == texts(path@),
    {
        ColumnName { path }
    }

    /// The fields that lead to the column.
    pub fn path(&self) -> (r: &Vec<String>)
        ensures
            texts(r@) == self@,
    {
        &self.path
    }

    /// The column `inner` inside this one.
    pub fn join(&self, inner: &ColumnName) -> (r: ColumnName)
        ensures
            r@ == self@ + inner@,
    {
        let mut path: Vec<String> = Vec::new();
        let mut i: usize = 0;
        while i < self.path.len()
            invariant
                i <= self.path.len(),
                path@.len() == i,
                forall|j: int| 0 <= j < i ==> (#[trigger] path@[j])@ == self.path@[j]@,
            decreases self.path.len() - i,
        {
            path.push(self.path[i].clone());
            i = i + 1;
        }
        let n: usize = self.path.len();
        let mut k: usize = 0;
        while k < inner.path.len()
            invariant
                k <= inner.path.len(),
                n == self.path.len(),
                path@.len() == n + k,
                forall|j: int| 0 <= j < n ==> (#[trigger] path@[j])@ == self.path@[j]@,
                forall|j: int| 0 <= j < k ==> (#[trigger] path@[n + j])@ == inner.path@[j]@,
            decreases inner.path.len() - k,
        {
            path.push(inner.path[k].clone());
            k = k + 1;
        }
        let r = ColumnName { path };
        assert forall|j: int| 0 <= j < r@.len() implies r@[j] == (self@ + inner@)[j] by {
            if j >= n {
                assert(path@[n + (j - n)]@ == inner.path@[j - n]@);
            }
        }
        assert(r@ =~= self@ + inner@);
        r
    }

    /// Whether two columns are the same.
    pub fn same(&self, other: &ColumnName) -> (r: bool)
        ensures
            r == (self@ == other@),
    {
        if self.path.len() != other.path.len() {
            assert(self@.len() != other@.len());
            return false;
        }
        let mut i: usize = 0;
        while i < self.path.len()
            invariant
                i <= self.path.len(),
                self.path.len() == other.path.len(),
                forall|j: int| 0 <= j < i ==> (#[trigger] self.path@[j])@ == other.path@[j]@,
            decreases self.path.len() - i,
        {
            if !same_text(self.path[i].as_str(), other.path[i].as_str()) {
                assert(self@[i as int] != other@[i as int]);
                return false;
            }
            i = i + 1;
        }
        assert(self@ =~= other@);
        true
    }
}

impl Clone for ColumnName {
    fn clone(&self) -> (r: Self)
        ensures
            r@ == self@,
    {
        let r = ColumnName::new(Vec::new()).join(self);
        assert(r@ =~= self@);
        r
    }
}

/// Whether `column` is one of `columns`.
pub fn contains_column(columns: &Vec<ColumnName>, column: &ColumnName) -> (r: bool)
    ensures
        r == paths(columns@).contains(column@),
{
    let mut i: usize = 0;
    while i < columns.len()
        invariant
            i <= columns.len(),
            forall|j: int| 0 <= j < i ==> (#[trigger] columns@[j])@ != column@,
        decreases columns.len() - i,
    {
        if columns[i].same(column) {
            assert(paths(columns@)[i as int] == column@);
            return true;
        }
        i = i + 1;
    }
    assert forall|j: int| 0 <= j < paths(columns@).len() implies paths(columns@)[j] != column@ by {
        assert(columns@[j]@ != column@);
    }
    false
}

impl Clone for Scalar {
    fn clone(&self) -> (r: Self)
        ensures
            r@ == self@,
    {
        match self {
            Scalar::Integer(v) => Scalar::Integer(*v),
            Scalar::Long(v) => Scalar::Long(*v),
            Scalar::Short(v) => Scalar::Short(*v),
            Scalar::Byte(v) => Scalar::Byte(*v),
            Scalar::FloatBits(v) => Scalar::FloatBits(*v),
            Scalar::DoubleBits(v) => Scalar::DoubleBits(*v),
            Scalar::String(v) => Scalar::String(v.clone()),
            Scalar::Boolean(v) => Scalar::Boolean(*v),
            Scalar::Timestamp(v) => Scalar::Timestamp(*v),
            Scalar::TimestampNtz(v) => Scalar::TimestampNtz(*v),
            Scalar::Date(v) => Scalar::Date(*v),
            Scalar::Binary(v) => {
                let bytes: Vec<u8> = v.clone();
                assert(bytes@ =~= v@);
                Scalar::Binary(bytes)
            },
            Scalar::Decimal { unscaled, precision, scale } => Scalar::Decimal {
                unscaled: *unscaled,
                precision: *precision,
                scale: *scale,
            },
            Scalar::Null(t) => Scalar::Null(t.clone()),
        }
    }
}

// ---------------------------------------------------------------------------
// References
// ---------------------------------------------------------------------------
/// The columns that an expression mentions.
pub open spec fn expression_references(e: ExpressionModel) -> Set<Path>
    decreases e,
{
    match e {
        ExpressionModel::Literal(_) => Set::empty(),
        ExpressionModel::Column(c) => Set::empty().insert(c),
        ExpressionModel::Predicate(p) => predicate_references(*p),
        ExpressionModel::Struct(fields, nullability) => match nullability {
            Some(n) => expressions_references(fields).union(expression_references(*n)),
            None => expressions_references(fields),
        },
        ExpressionModel::StructPatch { prepended_fields, field_patches, appended_fields } =>
            expressions_references(prepended_fields).union(
                field_patches_references(field_patches),
            ).union(expressions_references(appended_fields)),
        ExpressionModel::Unary(_, e) => expression_references(*e),
        ExpressionModel::Binary(_, l, r) => expression_references(*l).union(
            expression_references(*r),
        ),
        ExpressionModel::Variadic(_, es) => expressions_references(es),
        ExpressionModel::Opaque(_, es) => expressions_references(es),
        ExpressionModel::Unknown(_) => Set::empty(),
        ExpressionModel::ParseJson(e, _) => expression_references(*e),
        ExpressionModel::MapToStruct(e) => expression_references(*e),
    }
}

/// The columns that the expressions of a list mention.
pub open spec fn expressions_references(s: Seq<ExpressionModel>) -> Set<Path>
    decreases s,
{
    if s.len() == 0 {
        Set::empty()
    } else {
        expressions_references(s.drop_last()).union(expression_references(s.last()))
    }
}

/// The columns that a field patch mentions.
pub open spec fn field_patch_references(p: FieldPatchModel) -> Set<Path>
    decreases p,
{
    expressions_references(p.insertions)
}

/// The columns that the field patches of a list mention.
pub open spec fn field_patches_references(s: Seq<FieldPatchModel>) -> Set<Path>
    decreases s,
{
    if s.len() == 0 {
        Set::empty()
    } else {
        field_patches_references(s.drop_last()).union(field_patch_references(s.last()))
    }
}

/// The columns that a predicate mentions.
pub open spec fn predicate_references(p: PredicateModel) -> Set<Path>
    decreases p,
{
    match p {
        PredicateModel::BooleanExpression(e) => expression_references(e),
        PredicateModel::Not(p) => predicate_references(*p),
        PredicateModel::Unary(_, e) => expression_references(e),
        PredicateModel::Binary(_, l, r) => expression_references(l).union(expression_references(r)),
        PredicateModel::Junction(_, ps) => predicates_references(ps),
        PredicateModel::Opaque(_, es) => expressions_references(es),
        PredicateModel::Unknown(_) => Set::empty(),
    }
}

/// The columns that the predicates of a list mention.
pub open spec fn predicates_references(s: Seq<PredicateModel>) -> Set<Path>
    decreases s,
{
    if s.len() == 0 {
        Set::empty()
    } else {
        predicates_references(s.drop_last()).union(predicate_references(s.last()))
    }
}

/// Each arm of a list of predicates mentions only what the list mentions.
pub proof fn lemma_predicates_references(s: Seq<PredicateModel>, i: int)
    requires
        0 <= i < s.len(),
    ensures
        predicate_references(s[i]).subset_of(predicates_references(s)),
    decreases s.len(),
{
    if i < s.len() - 1 {
        lemma_predicates_references(s.drop_last(), i);
    }
}

/// The columns held by a list without repetition.
pub open spec fn distinct_columns(v: Seq<ColumnName>) -> bool {
    paths(v).no_duplicates()
}

fn add_column(column: &ColumnName, out: &mut Vec<ColumnName>)
    requires
        distinct_columns(old(out)@),
    ensures
        paths(final(out)@).to_set() == paths(old(out)@).to_set().insert(column@),
        distinct_columns(final(out)@),
{
    if !contains_column(out, column) {
        let ghost before = paths(out@);
        out.push(column.clone());
        proof {
            let after = paths(out@);
            assert(after =~= before.push(column@));
            assert forall|p: Path| #[trigger] after.to_set().contains(p) <==> before.to_set().insert(
                column@,
            ).contains(p) by {
                if before.contains(p) {
                    let i = choose|i: int| 0 <= i < before.len() && before[i] == p;
                    assert(after[i] == p);
                }
                if p == column@ {
                    assert(after[before.len() as int] == p);
                }
            }
            assert(after.to_set() =~= before.to_set().insert(column@));
        }
    } else {
        assert(paths(out@).to_set().insert(column@) =~= paths(out@).to_set());
    }
}

fn add_expression_references(e: &Expression, out: &mut Vec<ColumnName>)
    requires
        distinct_columns(old(out)@),
    ensures
        paths(final(out)@).to_set() == paths(old(out)@).to_set().union(expression_references(e@)),
        distinct_columns(final(out)@),
    decreases e,
{
    let ghost before = paths(out@).to_set();
    match e {
        Expression::Literal(_) => {},
        Expression::Column(c) => {
            add_column(c, out);
        },
        Expression::Predicate(p) => {
            add_predicate_references(p, out);
        },
        Expression::Struct(fields, nullability) => {
            add_expressions_references(fields, out);
            match nullability {
                Some(n) => {
                    add_expression_references(n, out);
                },
                None => {},
            }
        },
        Expression::StructPatch(patch) => {
            add_expressions_references(&patch.prepended_fields, out);
            add_field_patches_references(&patch.field_patches, out);
            add_expressions_references(&patch.appended_fields, out);
        },
        Expression::Unary(_, e) => {
            add_expression_references(e, out);
        },
        Expression::Binary(_, l, r) => {
            add_expression_references(l, out);
            add_expression_references(r, out);
        },
        Expression::Variadic(_, es) => {
            add_expressions_references(es, out);
        },
        Expression::Opaque(_, es) => {
            add_expressions_references(es, out);
        },
        Expression::Unknown(_) => {},
        Expression::ParseJson(e, _) => {
            add_expression_references(e, out);
        },
        Expression::MapToStruct(e) => {
            add_expression_references(e, out);
        },
    }
    assert(paths(out@).to_set() =~= before.union(expression_references(e@)));
}

fn add_expressions_references(v: &Vec<Expression>, out: &mut Vec<ColumnName>)
    requires
        distinct_columns(old(out)@),
    ensures
        paths(final(out)@).to_set() == paths(old(out)@).to_set().union(
            expressions_references(expressions_model(v@)),
        ),
        distinct_columns(final(out)@),
    decreases v,
{
    let ghost before = paths(out@).to_set();
    let mut i: usize = 0;
    assert(paths(out@).to_set() =~= before.union(expressions_references(expressions_model(v@.take(0)))));
    while i < v.len()
        invariant
            i <= v.len(),
            distinct_columns(out@),
            paths(out@).to_set() == before.union(
                expressions_references(expressions_model(v@.take(i as int))),
            ),
        decreases v.len() - i,
    {
        add_expression_references(&v[i], out);
        proof {
            let prefix = v@.take(i as int);
            lemma_expressions_model_push(prefix, v@[i as int]);
            assert(prefix.push(v@[i as int]) =~= v@.take(i + 1));
            assert(expressions_model(v@.take(i + 1)).drop_last() =~= expressions_model(prefix));
            assert(paths(out@).to_set() =~= before.union(
                expressions_references(expressions_model(v@.take(i + 1))),
            ));
        }
        i = i + 1;
    }
    assert(v@.take(i as int) =~= v@);
}

fn add_field_patches_references(v: &Vec<FieldPatch>, out: &mut Vec<ColumnName>)
    requires
        distinct_columns(old(out)@),
    ensures
        paths(final(out)@).to_set() == paths(old(out)@).to_set().union(
            field_patches_references(field_patches_model(v@)),
        ),
        distinct_columns(final(out)@),
    decreases v,
{
    let ghost before = paths(out@).to_set();
    let mut i: usize = 0;
    assert(paths(out@).to_set() =~= before.union(
        field_patches_references(field_patches_model(v@.take(0))),
    ));
    while i < v.len()
        invariant
            i <= v.len(),
            distinct_columns(out@),
            paths(out@).to_set() == before.union(
                field_patches_references(field_patches_model(v@.take(i as int))),
            ),
        decreases v.len() - i,
    {
        add_expressions_references(&v[i].insertions, out);
        proof {
            let prefix = v@.take(i as int);
            lemma_field_patches_model_push(prefix, v@[i as int]);
            assert(prefix.push(v@[i as int]) =~= v@.take(i + 1));
            assert(field_patches_model(v@.take(i + 1)).drop_last() =~= field_patches_model(prefix));
            assert(field_patch_references(field_patch_model(v@[i as int])) == expressions_references(
                expressions_model(v@[i as int].insertions@),
            ));
            assert(paths(out@).to_set() =~= before.union(
                field_patches_references(field_patches_model(v@.take(i + 1))),
            ));
        }
        i = i + 1;
    }
    assert(v@.take(i as int) =~= v@);
}

fn add_predicate_references(p: &Predicate, out: &mut Vec<ColumnName>)
    requires
        distinct_columns(old(out)@),
    ensures
        paths(final(out)@).to_set() == paths(old(out)@).to_set().union(predicate_references(p@)),
        distinct_columns(final(out)@),
    decreases p,
{
    let ghost before = paths(out@).to_set();
    match p {
        Predicate::BooleanExpression(e) => {
            add_expression_references(e, out);
        },
        Predicate::Not(p) => {
            add_predicate_references(p, out);
        },
        Predicate::Unary(_, e) => {
            add_expression_references(e, out);
        },
        Predicate::Binary(_, l, r) => {
            add_expression_references(l, out);
            add_expression_references(r, out);
        },
        Predicate::Junction(_, ps) => {
            add_predicates_references(ps, out);
        },
        Predicate::Opaque(_, es) => {
            add_expressions_references(es, out);
        },
        Predicate::Unknown(_) => {},
    }
    assert(paths(out@).to_set() =~= before.union(predicate_references(p@)));
}

fn add_predicates_references(v: &Vec<Predicate>, out: &mut Vec<ColumnName>)
    requires
        distinct_columns(old(out)@),
    ensures
        paths(final(out)@).to_set() == paths(old(out)@).to_set().union(
            predicates_references(predicates_model(v@)),
        ),
        distinct_columns(final(out)@),
    decreases v,
{
    let ghost before = paths(out@).to_set();
    let mut i: usize = 0;
    assert(paths(out@).to_set() =~= before.union(predicates_references(predicates_model(v@.take(0)))));
    while i < v.len()
        invariant
            i <= v.len(),
            distinct_columns(out@),
            paths(out@).to_set() == before.union(
                predicates_references(predicates_model(v@.take(i as int))),
            ),
        decreases v.len() - i,
    {
        add_predicate_references(&v[i], out);
        proof {
            let prefix = v@.take(i as int);
            lemma_predicates_model_push(prefix, v@[i as int]);
            assert(prefix.push(v@[i as int]) =~= v@.take(i + 1));
            assert(predicates_model(v@.take(i + 1)).drop_last() =~= predicates_model(prefix));
            assert(paths(out@).to_set() =~= before.union(
                predicates_references(predicates_model(v@.take(i + 1))),
            ));
        }
        i = i + 1;
    }
    assert(v@.take(i as int) =~= v@);
}

// ---------------------------------------------------------------------------
// Building
// ---------------------------------------------------------------------------
impl JunctionPredicateOp {
    /// The operator that takes this one's place under a negation.
    pub open spec fn inverse(self) -> JunctionPredicateOp {
        match self {
            JunctionPredicateOp::And => JunctionPredicateOp::Or,
            JunctionPredicateOp::Or => JunctionPredicateOp::And,
        }
    }

    pub fn invert(self) -> (r: JunctionPredicateOp)
        ensures
            r == self.inverse(),
    {
        match self {
            JunctionPredicateOp::And => JunctionPredicateOp::Or,
            JunctionPredicateOp::Or => JunctionPredicateOp::And,
        }
    }
}

impl Expression {
    /// The column at `path`.
    pub fn column(path: Vec<String>) -> (r: Self)
        ensures
            r@ == ExpressionModel::Column(texts(path@)),
    {
        Expression::Column(ColumnName::new(path))
    }

    pub fn literal(value: Scalar) -> (r: Self)
        ensures
            r@ == ExpressionModel::Literal(value@),
    {
        Expression::Literal(value)
    }

    /// The columns that this expression mentions, each once.
    pub fn references(&self) -> (r: Vec<ColumnName>)
        ensures
            paths(r@).to_set() == expression_references(self@),
            distinct_columns(r@),
    {
        let mut r: Vec<ColumnName> = Vec::new();
        assert(paths(r@).to_set() =~= Set::empty());
        add_expression_references(self, &mut r);
        assert(paths(r@).to_set() =~= expression_references(self@));
        r
    }
}

impl Predicate {
    /// The predicate that `expr` is.
    pub fn from_expr(expr: Expression) -> (r: Self)
        ensures
            r@ == match expr@ {
                ExpressionModel::Predicate(p) => *p,
                e => PredicateModel::BooleanExpression(e),
            },
    {
        match expr {
            Expression::Predicate(p) => *p,
            e => Predicate::BooleanExpression(e),
        }
    }

    pub fn not(pred: Predicate) -> (r: Self)
        ensures
            r@ == PredicateModel::Not(Box::new(pred@)),
    {
        Predicate::Not(Box::new(pred))
    }

    pub fn unary(op: UnaryPredicateOp, expr: Expression) -> (r: Self)
        ensures
            r@ == PredicateModel::Unary(op, expr@),
    {
        Predicate::Unary(op, expr)
    }

    pub fn is_null(expr: Expression) -> (r: Self)
        ensures
            r@ == PredicateModel::Unary(UnaryPredicateOp::IsNull, expr@),
    {
        Predicate::Unary(UnaryPredicateOp::IsNull, expr)
    }

    pub fn binary(op: BinaryPredicateOp, left: Expression, right: Expression) -> (r: Self)
        ensures
            r@ == PredicateModel::Binary(op, left@, right@),
    {
        Predicate::Binary(op, left, right)
    }

    pub fn eq(left: Expression, right: Expression) -> (r: Self)
        ensures
            r@ == PredicateModel::Binary(BinaryPredicateOp::Equal, left@, right@),
    {
        Predicate::Binary(BinaryPredicateOp::Equal, left, right)
    }

    pub fn lt(left: Expression, right: Expression) -> (r: Self)
        ensures
            r@ == PredicateModel::Binary(BinaryPredicateOp::LessThan, left@, right@),
    {
        Predicate::Binary(BinaryPredicateOp::LessThan, left, right)
    }

    pub fn gt(left: Expression, right: Expression) -> (r: Self)
        ensures
            r@ == PredicateModel::Binary(BinaryPredicateOp::GreaterThan, left@, right@),
    {
        Predicate::Binary(BinaryPredicateOp::GreaterThan, left, right)
    }

    pub fn junction(op: JunctionPredicateOp, preds: Vec<Predicate>) -> (r: Self)
        ensures
            r@ == PredicateModel::Junction(op, predicates_model(preds@)),
    {
        Predicate::Junction(op, preds)
    }

    pub fn and_from(preds: Vec<Predicate>) -> (r: Self)
        ensures
            r@ == PredicateModel::Junction(JunctionPredicateOp::And, predicates_model(preds@)),
    {
        Predicate::Junction(JunctionPredicateOp::And, preds)
    }

    pub fn or_from(preds: Vec<Predicate>) -> (r: Self)
        ensures
            r@ == PredicateModel::Junction(JunctionPredicateOp::Or, predicates_model(preds@)),
    {
        Predicate::Junction(JunctionPredicateOp::Or, preds)
    }

    pub fn and(a: Predicate, b: Predicate) -> (r: Self)
        ensures
            r@ == PredicateModel::Junction(JunctionPredicateOp::And, seq![a@, b@]),
    {
        Predicate::and_from(pair(a, b))
    }

    pub fn or(a: Predicate, b: Predicate) -> (r: Self)
        ensures
            r@ == PredicateModel::Junction(JunctionPredicateOp::Or, seq![a@, b@]),
    {
        Predicate::or_from(pair(a, b))
    }

    /// The columns that this predicate mentions, each once.
    pub fn references(&self) -> (r: Vec<ColumnName>)
        ensures
            paths(r@).to_set() == predicate_references(self@),
            distinct_columns(r@),
    {
        let mut r: Vec<ColumnName> = Vec::new();
        assert(paths(r@).to_set() =~= Set::empty());
        add_predicate_references(self, &mut r);
        assert(paths(r@).to_set() =~= predicate_references(self@));
        r
    }
}

fn pair(a: Predicate, b: Predicate) -> (r: Vec<Predicate>)
    ensures
        predicates_model(r@) == seq![a@, b@],
{
    let mut r: Vec<Predicate> = Vec::new();
    proof {
        lemma_predicates_model_push(r@, a);
        lemma_predicates_model_push(r@.push(a), b);
    }
    r.push(a);
    r.push(b);
    assert(predicates_model(r@) =~= seq![a@, b@]);
    r
}

// ---------------------------------------------------------------------------
// Searching
// ---------------------------------------------------------------------------
/// Whether `sub` occurs in `e`. Predicates and operations that only the engine knows are not
/// looked into.
pub open spec fn occurs(sub: Expression, e: Expression) -> bool
    decreases e,
{
    ||| sub == e
    ||| match e {
        Expression::Unary(_, e) => occurs(sub, *e),
        Expression::Binary(_, l, r) => occurs(sub, *l) || occurs(sub, *r),
        Expression::Variadic(_, es) => occurs_in_list(sub, es@),
        Expression::Struct(fields, nullability) => occurs_in_list(sub, fields@) || match nullability {
            Some(n) => occurs(sub, *n),
            None => false,
        },
        Expression::StructPatch(patch) => occurs_in_list(sub, patch.prepended_fields@)
            || occurs_in_list(sub, patch.appended_fields@) || occurs_in_patches(
            sub,
            patch.field_patches@,
        ),
        Expression::ParseJson(e, _) => occurs(sub, *e),
        Expression::MapToStruct(e) => occurs(sub, *e),
        _ => false,
    }
}

/// Whether `sub` occurs in an expression of a list.
pub open spec fn occurs_in_list(sub: Expression, s: Seq<Expression>) -> bool
    decreases s,
{
    s.len() > 0 && (occurs_in_list(sub, s.drop_last()) || occurs(sub, s.last()))
}

/// Whether `sub` occurs in what a list of field patches inserts.
pub open spec fn occurs_in_patches(sub: Expression, s: Seq<FieldPatch>) -> bool
    decreases s,
{
    s.len() > 0 && (occurs_in_patches(sub, s.drop_last()) || occurs_in_patch(sub, s.last()))
}

/// Whether `sub` occurs in what a field patch inserts.
pub open spec fn occurs_in_patch(sub: Expression, p: FieldPatch) -> bool
    decreases p,
{
    occurs_in_list(sub, p.insertions@)
}

/// Whether `predicate` accepts an expression that occurs in `expr`.
pub fn any_expression<F: Fn(&Expression) -> bool>(expr: &Expression, predicate: &F) -> (r: bool)
    requires
        forall|e: &Expression| predicate.requires((e,)),
    ensures
        r ==> exists|sub: Expression| occurs(sub, *expr) && #[trigger] predicate.ensures((&sub,), true),
        !r ==> forall|sub: Expression| #[trigger]
            occurs(sub, *expr) ==> predicate.ensures((&sub,), false),
    decreases expr,
{
    if predicate(expr) {
        assert(occurs(*expr, *expr));
        return true;
    }
    let found: bool = match expr {
        Expression::Unary(_, e) => any_expression(e, predicate),
        Expression::Binary(_, l, r) => any_expression(l, predicate) || any_expression(r, predicate),
        Expression::Variadic(_, es) => any_in_list(es, predicate),
        Expression::Struct(fields, nullability) => any_in_list(fields, predicate)
            || match nullability {
            Some(n) => any_expression(n, predicate),
            None => false,
        },
        Expression::StructPatch(patch) => any_in_list(&patch.prepended_fields, predicate)
            || any_in_list(&patch.appended_fields, predicate) || any_in_patches(
            &patch.field_patches,
            predicate,
        ),
        Expression::ParseJson(e, _) => any_expression(e, predicate),
        Expression::MapToStruct(e) => any_expression(e, predicate),
        _ => false,
    };
    if !found {
        assert forall|sub: Expression| #[trigger]
            occurs(sub, *expr) implies predicate.ensures((&sub,), false) by {
            lemma_occurs(sub, *expr);
        }
    }
    found
}

/// An expression occurs in another one as itself, or in one of its parts.
proof fn lemma_occurs(sub: Expression, e: Expression)
    requires
        occurs(sub, e),
    ensures
        sub == e || match e {
            Expression::Unary(_, e) => occurs(sub, *e),
            Expression::Binary(_, l, r) => occurs(sub, *l) || occurs(sub, *r),
            Expression::Variadic(_, es) => occurs_in_list(sub, es@),
            Expression::Struct(fields, nullability) => occurs_in_list(sub, fields@)
                || match nullability {
                Some(n) => occurs(sub, *n),
                None => false,
            },
            Expression::StructPatch(patch) => occurs_in_list(sub, patch.prepended_fields@)
                || occurs_in_list(sub, patch.appended_fields@) || occurs_in_patches(
                sub,
                patch.field_patches@,
            ),
            Expression::ParseJson(e, _) => occurs(sub, *e),
            Expression::MapToStruct(e) => occurs(sub, *e),
            _ => false,
        },
{
}

fn any_in_list<F: Fn(&Expression) -> bool>(v: &Vec<Expression>, predicate: &F) -> (r: bool)
    requires
        forall|e: &Expression| predicate.requires((e,)),
    ensures
        r ==> exists|sub: Expression|
            occurs_in_list(sub, v@) && #[trigger] predicate.ensures((&sub,), true),
        !r ==> forall|sub: Expression| #[trigger]
            occurs_in_list(sub, v@) ==> predicate.ensures((&sub,), false),
    decreases v,
{
    let mut i: usize = 0;
    while i < v.len()
        invariant
            i <= v.len(),
            forall|e: &Expression| predicate.requires((e,)),
            forall|sub: Expression| #[trigger]
                occurs_in_list(sub, v@.take(i as int)) ==> predicate.ensures((&sub,), false),
        decreases v.len() - i,
    {
        if any_expression(&v[i], predicate) {
            proof {
                let sub = choose|sub: Expression|
                    occurs(sub, v@[i as int]) && #[trigger] predicate.ensures((&sub,), true);
                lemma_occurs_in_list(sub, v@, i as int);
            }
            return true;
        }
        assert(v@.take(i + 1).drop_last() =~= v@.take(i as int));
        assert(v@.take(i + 1).last() == v@[i as int]);
        assert forall|sub: Expression| #[trigger]
            occurs_in_list(sub, v@.take(i + 1)) implies predicate.ensures((&sub,), false) by {
            assert(occurs_in_list(sub, v@.take(i as int)) || occurs(sub, v@[i as int]));
        }
        i = i + 1;
    }
    assert(v@.take(i as int) =~= v@);
    false
}

fn any_in_patches<F: Fn(&Expression) -> bool>(v: &Vec<FieldPatch>, predicate: &F) -> (r: bool)
    requires
        forall|e: &Expression| predicate.requires((e,)),
    ensures
        r ==> exists|sub: Expression|
            occurs_in_patches(sub, v@) && #[trigger] predicate.ensures((&sub,), true),
        !r ==> forall|sub: Expression| #[trigger]
            occurs_in_patches(sub, v@) ==> predicate.ensures((&sub,), false),
    decreases v,
{
    let mut i: usize = 0;
    while i < v.len()
        invariant
            i <= v.len(),
            forall|e: &Expression| predicate.requires((e,)),
            forall|sub: Expression| #[trigger]
                occurs_in_patches(sub, v@.take(i as int)) ==> predicate.ensures((&sub,), false),
        decreases v.len() - i,
    {
        if any_in_list(&v[i].insertions, predicate) {
            proof {
                let sub = choose|sub: Expression|
                    occurs_in_list(sub, v@[i as int].insertions@) && #[trigger] predicate.ensures((&sub,), true);
                assert(occurs_in_patch(sub, v@[i as int]));
                lemma_occurs_in_patches(sub, v@, i as int);
            }
            return true;
        }
        assert(v@.take(i + 1).drop_last() =~= v@.take(i as int));
        assert(v@.take(i + 1).last() == v@[i as int]);
        assert forall|sub: Expression| #[trigger]
            occurs_in_patches(sub, v@.take(i + 1)) implies predicate.ensures((&sub,), false) by {
            assert(occurs_in_patches(sub, v@.take(i as int)) || occurs_in_patch(sub, v@[i as int]));
            if occurs_in_patch(sub, v@[i as int]) {
                assert(occurs_in_list(sub, v@[i as int].insertions@));
            }
        }
        i = i + 1;
    }
    assert(v@.take(i as int) =~= v@);
    false
}

proof fn lemma_occurs_in_list(sub: Expression, s: Seq<Expression>, i: int)
    requires
        0 <= i < s.len(),
        occurs(sub, s[i]),
    ensures
        occurs_in_list(sub, s),
    decreases s.len(),
{
    if i < s.len() - 1 {
        lemma_occurs_in_list(sub, s.drop_last(), i);
    }
}

proof fn lemma_occurs_in_patches(sub: Expression, s: Seq<FieldPatch>, i: int)
    requires
        0 <= i < s.len(),
        occurs_in_patch(sub, s[i]),
    ensures
        occurs_in_patches(sub, s),
    decreases s.len(),
{
    if i < s.len() - 1 {
        lemma_occurs_in_patches(sub, s.drop_last(), i);
    }
}

// ---------------------------------------------------------------------------
// Laws
// ---------------------------------------------------------------------------
/// Whether `part` is an expression of which `e` is made. Predicates, and operations that only the
/// engine knows, have no such parts.
pub open spec fn is_part(part: Expression, e: Expression) -> bool {
    match e {
        Expression::Unary(_, x) => part == *x,
        Expression::Binary(_, l, r) => part == *l || part == *r,
        Expression::Variadic(_, es) => es@.contains(part),
        Expression::Struct(fields, nullability) => fields@.contains(part) || (
        nullability matches Some(n) && part == *n),
        Expression::StructPatch(patch) => patch.prepended_fields@.contains(part)
            || patch.appended_fields@.contains(part) || exists|i: int|
            0 <= i < patch.field_patches@.len() && (
            #[trigger] patch.field_patches@[i]).insertions@.contains(part),
        Expression::ParseJson(x, _) => part == *x,
        Expression::MapToStruct(x) => part == *x,
        _ => false,
    }
}

/// What occurs in an expression: the expression itself, and what occurs in one of its parts, in any of
/// them, and nothing else.
pub proof fn law_parts_are_searched(sub: Expression, e: Expression)
    ensures
        occurs(sub, e) <==> sub == e || exists|part: Expression| #[trigger]
            is_part(part, e) && occurs(sub, part),
{
    if occurs(sub, e) && sub != e {
        match e {
            Expression::Unary(_, x) => {
                assert(is_part(*x, e));
            },
            Expression::Binary(_, l, r) => {
                assert(is_part(*l, e) && is_part(*r, e));
            },
            Expression::Variadic(_, es) => {
                let part = lemma_occurs_in_one(sub, es@);
                assert(is_part(part, e));
            },
            Expression::Struct(fields, nullability) => {
                if occurs_in_list(sub, fields@) {
                    let part = lemma_occurs_in_one(sub, fields@);
                    assert(is_part(part, e));
                } else if let Some(n) = nullability {
                    assert(is_part(*n, e));
                }
            },
            Expression::StructPatch(patch) => {
                if occurs_in_list(sub, patch.prepended_fields@) {
                    let part = lemma_occurs_in_one(sub, patch.prepended_fields@);
                    assert(is_part(part, e));
                } else if occurs_in_list(sub, patch.appended_fields@) {
                    let part = lemma_occurs_in_one(sub, patch.appended_fields@);
                    assert(is_part(part, e));
                } else {
                    let (i, part) = lemma_occurs_in_one_patch(sub, patch.field_patches@);
                    assert(patch.field_patches@[i].insertions@.contains(part));
                    assert(is_part(part, e));
                }
            },
            Expression::ParseJson(x, _) => {
                assert(is_part(*x, e));
            },
            Expression::MapToStruct(x) => {
                assert(is_part(*x, e));
            },
            _ => {},
        }
    }
    if exists|part: Expression| #[trigger] is_part(part, e) && occurs(sub, part) {
        let part = choose|part: Expression| #[trigger] is_part(part, e) && occurs(sub, part);
        match e {
            Expression::Variadic(_, es) => {
                lemma_occurs_in_some(sub, es@, part);
            },
            Expression::Struct(fields, _) => {
                if fields@.contains(part) {
                    lemma_occurs_in_some(sub, fields@, part);
                }
            },
            Expression::StructPatch(patch) => {
                if patch.prepended_fields@.contains(part) {
                    lemma_occurs_in_some(sub, patch.prepended_fields@, part);
                } else if patch.appended_fields@.contains(part) {
                    lemma_occurs_in_some(sub, patch.appended_fields@, part);
                } else {
                    let i = choose|i: int|
                        0 <= i < patch.field_patches@.len() && (
                        #[trigger] patch.field_patches@[i]).insertions@.contains(part);
                    lemma_occurs_in_some(sub, patch.field_patches@[i].insertions@, part);
                    assert(occurs_in_patch(sub, patch.field_patches@[i]));
                    lemma_occurs_in_patches(sub, patch.field_patches@, i);
                }
            },
            _ => {},
        }
    }
}

proof fn lemma_occurs_in_one(sub: Expression, s: Seq<Expression>) -> (part: Expression)
    requires
        occurs_in_list(sub, s),
    ensures
        s.contains(part),
        occurs(sub, part),
    decreases s.len(),
{
    if occurs(sub, s.last()) {
        assert(s[s.len() - 1] == s.last());
        s.last()
    } else {
        let part = lemma_occurs_in_one(sub, s.drop_last());
        let i = choose|i: int| 0 <= i < s.drop_last().len() && s.drop_last()[i] == part;
        assert(s[i] == part);
        part
    }
}

proof fn lemma_occurs_in_one_patch(sub: Expression, s: Seq<FieldPatch>) -> (r: (int, Expression))
    requires
        occurs_in_patches(sub, s),
    ensures
        0 <= r.0 < s.len(),
        s[r.0].insertions@.contains(r.1),
        occurs(sub, r.1),
    decreases s.len(),
{
    if occurs_in_patch(sub, s.last()) {
        let part = lemma_occurs_in_one(sub, s.last().insertions@);
        (s.len() - 1, part)
    } else {
        let (i, part) = lemma_occurs_in_one_patch(sub, s.drop_last());
        assert(s.drop_last()[i] == s[i]);
        (i, part)
    }
}

proof fn lemma_occurs_in_some(sub: Expression, s: Seq<Expression>, part: Expression)
    requires
        s.contains(part),
        occurs(sub, part),
    ensures
        occurs_in_list(sub, s),
{
    let i = choose|i: int| 0 <= i < s.len() && s[i] == part;
    lemma_occurs_in_list(sub, s, i);
}

/// Whether `part` is an expression of which `e` is made.
pub open spec fn is_operand(part: ExpressionModel, e: ExpressionModel) -> bool {
    match e {
        ExpressionModel::Struct(fields, nullability) => fields.contains(part) || (
        nullability matches Some(n) && part == *n),
        ExpressionModel::StructPatch { prepended_fields, field_patches, appended_fields } =>
            prepended_fields.contains(part) || appended_fields.contains(part) || exists|i: int|
            0 <= i < field_patches.len() && (#[trigger] field_patches[i]).insertions.contains(part),
        ExpressionModel::Unary(_, x) => part == *x,
        ExpressionModel::Binary(_, l, r) => part == *l || part == *r,
        ExpressionModel::Variadic(_, es) => es.contains(part),
        ExpressionModel::Opaque(_, es) => es.contains(part),
        ExpressionModel::ParseJson(x, _) => part == *x,
        ExpressionModel::MapToStruct(x) => part == *x,
        _ => false,
    }
}

/// Which columns an expression mentions: a column itself, a predicate in its place those that the
/// predicate mentions, and otherwise those that its parts mention, all of them and no other.
pub proof fn law_columns_of_an_expression(e: ExpressionModel, c: Path)
    ensures
        expression_references(e).contains(c) <==> {
            ||| e == ExpressionModel::Column(c)
            ||| e matches ExpressionModel::Predicate(p) && predicate_references(*p).contains(c)
            ||| exists|part: ExpressionModel| #[trigger]
                is_operand(part, e) && expression_references(part).contains(c)
        },
{
    if expression_references(e).contains(c) {
        match e {
            ExpressionModel::Struct(fields, nullability) => {
                if expressions_references(fields).contains(c) {
                    let part = lemma_mentioned_by_one(fields, c);
                    assert(is_operand(part, e));
                } else if let Some(n) = nullability {
                    assert(is_operand(*n, e));
                }
            },
            ExpressionModel::StructPatch { prepended_fields, field_patches, appended_fields } => {
                if expressions_references(prepended_fields).contains(c) {
                    let part = lemma_mentioned_by_one(prepended_fields, c);
                    assert(is_operand(part, e));
                } else if expressions_references(appended_fields).contains(c) {
                    let part = lemma_mentioned_by_one(appended_fields, c);
                    assert(is_operand(part, e));
                } else {
                    let (i, part) = lemma_mentioned_by_one_patch(field_patches, c);
                    assert(field_patches[i].insertions.contains(part));
                    assert(is_operand(part, e));
                }
            },
            ExpressionModel::Unary(_, x) => {
                assert(is_operand(*x, e));
            },
            ExpressionModel::Binary(_, l, r) => {
                assert(is_operand(*l, e) && is_operand(*r, e));
            },
            ExpressionModel::Variadic(_, es) => {
                let part = lemma_mentioned_by_one(es, c);
                assert(is_operand(part, e));
            },
            ExpressionModel::Opaque(_, es) => {
                let part = lemma_mentioned_by_one(es, c);
                assert(is_operand(part, e));
            },
            ExpressionModel::ParseJson(x, _) => {
                assert(is_operand(*x, e));
            },
            ExpressionModel::MapToStruct(x) => {
                assert(is_operand(*x, e));
            },
            _ => {},
        }
    }
    if exists|part: ExpressionModel| #[trigger]
        is_operand(part, e) && expression_references(part).contains(c) {
        let part = choose|part: ExpressionModel| #[trigger]
            is_operand(part, e) && expression_references(part).contains(c);
        match e {
            ExpressionModel::Struct(fields, _) => {
                if fields.contains(part) {
                    lemma_mentioned_by_some(fields, part, c);
                }
            },
            ExpressionModel::StructPatch { prepended_fields, field_patches, appended_fields } => {
                if prepended_fields.contains(part) {
                    lemma_mentioned_by_some(prepended_fields, part, c);
                } else if appended_fields.contains(part) {
                    lemma_mentioned_by_some(appended_fields, part, c);
                } else {
                    let i = choose|i: int|
                        0 <= i < field_patches.len() && (
                        #[trigger] field_patches[i]).insertions.contains(part);
                    lemma_mentioned_by_some(field_patches[i].insertions, part, c);
                    lemma_mentioned_by_some_patch(field_patches, i, c);
                }
            },
            ExpressionModel::Variadic(_, es) => {
                lemma_mentioned_by_some(es, part, c);
            },
            ExpressionModel::Opaque(_, es) => {
                lemma_mentioned_by_some(es, part, c);
            },
            _ => {},
        }
    }
}

/// Which columns a predicate mentions: those that its operands or the predicates in it mention, all of
/// them and no other.
pub proof fn law_columns_of_a_predicate(p: PredicateModel, c: Path)
    ensures
        predicate_references(p).contains(c) <==> match p {
            PredicateModel::BooleanExpression(e) => expression_references(e).contains(c),
            PredicateModel::Not(q) => predicate_references(*q).contains(c),
            PredicateModel::Unary(_, e) => expression_references(e).contains(c),
            PredicateModel::Binary(_, l, r) => expression_references(l).contains(c)
                || expression_references(r).contains(c),
            PredicateModel::Junction(_, ps) => exists|i: int|
                0 <= i < ps.len() && predicate_references(#[trigger] ps[i]).contains(c),
            PredicateModel::Opaque(_, es) => exists|i: int|
                0 <= i < es.len() && expression_references(#[trigger] es[i]).contains(c),
            PredicateModel::Unknown(_) => false,
        },
{
    match p {
        PredicateModel::Junction(_, ps) => {
            if predicates_references(ps).contains(c) {
                lemma_mentioned_by_one_predicate(ps, c);
            }
            if exists|i: int| 0 <= i < ps.len() && predicate_references(#[trigger] ps[i]).contains(c) {
                let i = choose|i: int|
                    0 <= i < ps.len() && predicate_references(#[trigger] ps[i]).contains(c);
                lemma_predicates_references(ps, i);
            }
        },
        PredicateModel::Opaque(_, es) => {
            if expressions_references(es).contains(c) {
                let part = lemma_mentioned_by_one(es, c);
                let i = choose|i: int| 0 <= i < es.len() && es[i] == part;
                assert(expression_references(es[i]).contains(c));
            }
            if exists|i: int| 0 <= i < es.len() && expression_references(#[trigger] es[i]).contains(c) {
                let i = choose|i: int|
                    0 <= i < es.len() && expression_references(#[trigger] es[i]).contains(c);
                lemma_mentioned_by_some(es, es[i], c);
            }
        },
        _ => {},
    }
}

proof fn lemma_mentioned_by_one_predicate(ps: Seq<PredicateModel>, c: Path)
    requires
        predicates_references(ps).contains(c),
    ensures
        exists|i: int| 0 <= i < ps.len() && predicate_references(#[trigger] ps[i]).contains(c),
    decreases ps.len(),
{
    let init = ps.drop_last();
    if predicates_references(init).contains(c) {
        lemma_mentioned_by_one_predicate(init, c);
        let i = choose|i: int|
            0 <= i < init.len() && predicate_references(#[trigger] init[i]).contains(c);
        assert(predicate_references(ps[i]).contains(c));
    } else {
        assert(predicate_references(ps[ps.len() - 1]).contains(c));
    }
}

proof fn lemma_mentioned_by_one(s: Seq<ExpressionModel>, c: Path) -> (part: ExpressionModel)
    requires
        expressions_references(s).contains(c),
    ensures
        s.contains(part),
        expression_references(part).contains(c),
    decreases s.len(),
{
    if expression_references(s.last()).contains(c) {
        assert(s[s.len() - 1] == s.last());
        s.last()
    } else {
        let part = lemma_mentioned_by_one(s.drop_last(), c);
        let i = choose|i: int| 0 <= i < s.drop_last().len() && s.drop_last()[i] == part;
        assert(s[i] == part);
        part
    }
}

proof fn lemma_mentioned_by_one_patch(s: Seq<FieldPatchModel>, c: Path) -> (r: (
    int,
    ExpressionModel,
))
    requires
        field_patches_references(s).contains(c),
    ensures
        0 <= r.0 < s.len(),
        s[r.0].insertions.contains(r.1),
        expression_references(r.1).contains(c),
    decreases s.len(),
{
    if field_patch_references(s.last()).contains(c) {
        let part = lemma_mentioned_by_one(s.last().insertions, c);
        (s.len() - 1, part)
    } else {
        let (i, part) = lemma_mentioned_by_one_patch(s.drop_last(), c);
        assert(s.drop_last()[i] == s[i]);
        (i, part)
    }
}

proof fn lemma_mentioned_by_some(s: Seq<ExpressionModel>, part: ExpressionModel, c: Path)
    requires
        s.contains(part),
        expression_references(part).contains(c),
    ensures
        expressions_references(s).contains(c),
    decreases s.len(),
{
    let i = choose|i: int| 0 <= i < s.len() && s[i] == part;
    if i < s.len() - 1 {
        assert(s.drop_last()[i] == part);
        lemma_mentioned_by_some(s.drop_last(), part, c);
    }
}

proof fn lemma_mentioned_by_some_patch(s: Seq<FieldPatchModel>, i: int, c: Path)
    requires
        0 <= i < s.len(),
        expressions_references(s[i].insertions).contains(c),
    ensures
        field_patches_references(s).contains(c),
    decreases s.len(),
{
    if i < s.len() - 1 {
        assert(s.drop_last()[i] == s[i]);
        lemma_mentioned_by_some_patch(s.drop_last(), i, c);
    } else {
        assert(field_patch_references(s.last()).contains(c));
    }
}

} // verus!
