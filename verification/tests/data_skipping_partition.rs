use buoyant_kernel::expressions::{
    BinaryPredicateOp, ColumnName, Expression, JunctionPredicateOp, Predicate, Scalar,
    UnaryPredicateOp,
};
use buoyant_kernel::scan::data_skipping_partition::{
    as_checkpoint_partition_predicate, PartitionPredicateBuilder,
};
use serde_json::Value;

fn column(path: &str) -> Expression {
    Expression::column(path.split('.').map(|s| s.to_string()).collect())
}

fn name(path: &str) -> ColumnName {
    ColumnName::new(path.split('.').map(|s| s.to_string()).collect())
}

fn text(s: &str) -> Expression {
    Expression::literal(Scalar::String(s.to_string()))
}

fn long(n: i64) -> Expression {
    Expression::literal(Scalar::Long(n))
}

fn operand(e: &Expression) -> Value {
    match e {
        Expression::Literal(Scalar::String(s)) => Value::from(s.as_str()),
        Expression::Column(c) => Value::from_iter(c.path().iter().map(|p| p.as_str())),
        other => panic!("not expected here: {other:?}"),
    }
}

fn serialize(pred: &Predicate) -> Value {
    match pred {
        Predicate::Unary(op, e) => Value::from_iter([Value::from(format!("{op:?}")), operand(e)]),
        Predicate::Binary(op, l, r) => {
            Value::from_iter([Value::from(format!("{op:?}")), operand(l), operand(r)])
        }
        Predicate::Junction(op, preds) => {
            let arms = Value::from_iter(preds.iter().map(serialize));
            Value::from_iter([Value::from(format!("{op:?}")), arms])
        }
        other => panic!("not expected here: {other:?}"),
    }
}

fn build(pred: &Predicate) -> Option<Predicate> {
    as_checkpoint_partition_predicate(pred, &["part".to_string()])
}

#[test]
fn partition_comparison_uses_parsed_value_and_protects_non_add_actions() {
    let candidate = build(&Predicate::eq(column("part"), text("value")))
        .expect("partition predicate should be represented");
    let references = candidate.references();
    assert!(references.contains(&name("partitionValues_parsed.part")));
    assert!(references.contains(&name("path")));
    serde_json::to_string(&serialize(&candidate))
        .expect("partition predicate should remain serializable");
}

#[test]
fn data_only_predicate_produces_no_candidate() {
    assert!(build(&Predicate::eq(column("data"), text("value"))).is_none());
}

#[test]
fn unsupported_and_arm_is_omitted_as_true() {
    let candidate = build(&Predicate::and(
        Predicate::eq(column("part"), text("value")),
        Predicate::eq(column("data"), long(10)),
    ))
    .expect("supported partition arm should remain");
    let references = candidate.references();
    assert!(references.contains(&name("partitionValues_parsed.part")));
    assert!(!references.contains(&name("data")));
}

#[test]
fn unsupported_or_arm_disables_complete_or() {
    assert!(build(&Predicate::or(
        Predicate::eq(column("part"), text("value")),
        Predicate::eq(column("data"), long(10)),
    ))
    .is_none());
}

#[test]
fn unsupported_partition_operator_produces_no_candidate() {
    assert!(build(&Predicate::binary(
        BinaryPredicateOp::In,
        column("part"),
        text("value"),
    ))
    .is_none());
}

#[test]
fn comparison_is_guarded_against_rows_without_a_file() {
    let candidate = build(&Predicate::eq(column("part"), text("value"))).unwrap();
    assert_eq!(
        candidate,
        Predicate::Junction(
            JunctionPredicateOp::Or,
            vec![
                Predicate::is_null(column("path")),
                Predicate::eq(column("partitionValues_parsed.part"), text("value")),
            ]
        )
    );
}

#[test]
fn comparison_of_partition_columns_is_not_supported() {
    let columns = ["part".to_string(), "other".to_string()];
    let compared = Predicate::lt(column("part"), column("other"));
    assert!(as_checkpoint_partition_predicate(&compared, &columns).is_none());
}

#[test]
fn boolean_columns_literals_and_nested_predicates_are_translated() {
    let nested = Predicate::from_expr(Expression::Predicate(Box::new(Predicate::not(
        Predicate::from_expr(column("part")),
    ))));
    assert_eq!(
        build(&Predicate::and(
            nested,
            Predicate::from_expr(Expression::literal(Scalar::Boolean(true)))
        )),
        Some(Predicate::or(
            Predicate::is_null(column("path")),
            Predicate::and(
                Predicate::not(Predicate::from_expr(column("partitionValues_parsed.part"))),
                Predicate::from_expr(Expression::literal(Scalar::Boolean(true)))
            )
        ))
    );
}

#[test]
fn empty_junctions_keep_their_meaning() {
    let partition_columns = ["part".to_string()];
    let builder = PartitionPredicateBuilder {
        partition_columns: &partition_columns,
    };
    assert_eq!(
        builder.translate_predicate(&Predicate::and_from(vec![]), true),
        Some(Predicate::or_from(vec![]))
    );
    // It says nothing of partition values.
    assert!(build(&Predicate::and_from(vec![])).is_none());
}

#[test]
fn null_checks_are_translated() {
    let partition_columns = ["part".to_string()];
    let builder = PartitionPredicateBuilder {
        partition_columns: &partition_columns,
    };
    assert_eq!(
        builder.translate_predicate(&Predicate::is_null(column("part")), false),
        Some(Predicate::Unary(
            UnaryPredicateOp::IsNull,
            column("partitionValues_parsed.part")
        ))
    );
    assert_eq!(
        builder.translate_predicate(&Predicate::is_null(column("part")), true),
        Some(Predicate::not(Predicate::is_null(column(
            "partitionValues_parsed.part"
        ))))
    );
    assert!(builder
        .translate_predicate(&Predicate::is_null(column("part.inner")), false)
        .is_none());
}

#[test]
fn negation_turns_and_into_or() {
    let partition_columns = ["part".to_string()];
    let builder = PartitionPredicateBuilder {
        partition_columns: &partition_columns,
    };
    let supported = Predicate::eq(column("part"), text("a"));
    let unsupported = Predicate::eq(column("data"), long(1));
    // NOT (part = 'a' AND data = 1) may hold of any partition.
    assert!(builder
        .translate_predicate(
            &Predicate::not(Predicate::and(supported, unsupported)),
            false
        )
        .is_none());
    let supported = Predicate::eq(column("part"), text("a"));
    let unsupported = Predicate::eq(column("data"), long(1));
    // NOT (part = 'a' OR data = 1) holds only where NOT part = 'a' does.
    assert!(builder
        .translate_predicate(&Predicate::not(Predicate::or(supported, unsupported)), false)
        .is_some());
}
