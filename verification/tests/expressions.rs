use std::sync::Arc;

use buoyant_kernel::error::Error;
use buoyant_kernel::expressions::{
    any_expression, contains_column, BinaryExpressionOp, ColumnName, Expression, FieldPatch,
    Predicate, Scalar, StructPatch, UnaryExpressionOp, VariadicExpressionOp,
};
use buoyant_kernel::scan::columns::get_any_level_column_physical_name;
use buoyant_kernel::scan::physical_predicate::evaluate_statically;
use buoyant_kernel::schema::{
    ColumnMappingMode, DataType, PrimitiveType, StructField, StructType,
};
use buoyant_kernel::text::{join_texts, contains_text, decimal, same_text};

fn name(path: &str) -> ColumnName {
    ColumnName::new(path.split('.').map(|s| s.to_string()).collect())
}

fn column(path: &str) -> Expression {
    Expression::Column(name(path))
}

fn long(n: i64) -> Expression {
    Expression::literal(Scalar::Long(n))
}

#[test]
fn references_are_collected_once() {
    let patch = StructPatch {
        prepended_fields: vec![column("a")],
        field_patches: vec![FieldPatch {
            field_name: "f".to_string(),
            insertions: vec![column("b.c"), column("a")],
        }],
        appended_fields: vec![Expression::Unary(
            UnaryExpressionOp::ToJson,
            Box::new(column("d")),
        )],
    };
    let e = Expression::Struct(
        vec![
            Expression::StructPatch(patch),
            Expression::Predicate(Box::new(Predicate::eq(column("e"), column("a")))),
        ],
        Some(Box::new(column("f"))),
    );
    let found = e.references();
    assert_eq!(found.len(), 5);
    for path in ["a", "b.c", "d", "e", "f"] {
        assert!(contains_column(&found, &name(path)), "{path}");
    }
    assert!(!contains_column(&found, &name("b")));
}

#[test]
fn any_expression_searches_inside() {
    let is_json = |e: &Expression| {
        matches!(
            e,
            Expression::Unary(UnaryExpressionOp::ToJson, _) | Expression::ParseJson(..)
        )
    };
    let to_json = || Expression::Unary(UnaryExpressionOp::ToJson, Box::new(column("a")));
    let coalesced = Expression::Variadic(
        VariadicExpressionOp::Coalesce,
        vec![column("b"), to_json()],
    );
    assert!(any_expression(&coalesced, &is_json));
    assert!(!any_expression(&column("a"), &is_json));
    let sum = Expression::Binary(
        BinaryExpressionOp::Plus,
        Box::new(long(1)),
        Box::new(Expression::MapToStruct(Box::new(to_json()))),
    );
    assert!(any_expression(&sum, &is_json));
    let patch = Expression::StructPatch(StructPatch {
        prepended_fields: vec![],
        field_patches: vec![FieldPatch {
            field_name: "f".to_string(),
            insertions: vec![to_json()],
        }],
        appended_fields: vec![],
    });
    assert!(any_expression(&patch, &is_json));
    let schema = Arc::new(StructType::new_unchecked(vec![]));
    assert!(any_expression(
        &Expression::ParseJson(Box::new(column("a")), schema),
        &is_json
    ));
    // Predicates and operations of the engine are not searched.
    let predicate = Expression::Predicate(Box::new(Predicate::is_null(to_json())));
    assert!(!any_expression(&predicate, &is_json));
    let opaque = Expression::Opaque("f".to_string(), vec![to_json()]);
    assert!(!any_expression(&opaque, &is_json));
}

#[test]
fn static_evaluation_is_three_valued() {
    let truth = |b: bool| Predicate::from_expr(Expression::literal(Scalar::Boolean(b)));
    let open = || Predicate::is_null(column("a"));
    let cases = [
        (truth(true), Some(true)),
        (Predicate::not(truth(true)), Some(false)),
        (Predicate::and(open(), truth(false)), Some(false)),
        (Predicate::and(open(), truth(true)), None),
        (Predicate::or(open(), truth(true)), Some(true)),
        (Predicate::or(open(), truth(false)), None),
        (Predicate::or_from(vec![]), Some(false)),
        (Predicate::and_from(vec![]), Some(true)),
        (Predicate::lt(long(1), long(2)), Some(true)),
        (Predicate::gt(long(1), long(2)), Some(false)),
        (Predicate::eq(long(1), long(1)), Some(true)),
        (
            Predicate::eq(long(1), Expression::literal(Scalar::Integer(1))),
            None,
        ),
        (Predicate::is_null(long(1)), Some(false)),
        (Predicate::Unknown("x".to_string()), None),
    ];
    for (predicate, expected) in cases {
        assert_eq!(evaluate_statically(&predicate), expected, "{predicate:?}");
    }
}

#[test]
fn columns_are_found_at_any_level() {
    let leaf = || DataType::Primitive(PrimitiveType::Long);
    let inner = StructType::new_unchecked(vec![StructField::nullable("b", leaf())]);
    let schema = StructType::new_unchecked(vec![StructField::nullable(
        "a",
        DataType::Struct(Box::new(inner)),
    )]);
    let find = |path: &str| {
        get_any_level_column_physical_name(&schema, &name(path), ColumnMappingMode::NoMapping)
    };
    assert_eq!(find("a.b").unwrap(), name("a.b"));
    assert_eq!(find("a").unwrap(), name("a"));
    assert!(find("b").is_err());
    assert!(find("a.b.c").is_err());
    assert!(get_any_level_column_physical_name(
        &schema,
        &name("a.b"),
        ColumnMappingMode::Name
    )
    .is_err());
}

#[test]
fn errors_have_messages() {
    let s = || "x".to_string();
    let cases = [
        (Error::Schema(s()), "Schema error: x"),
        (Error::Unsupported(s()), "Unsupported: x"),
        (Error::Generic(s()), "Generic delta kernel error: x"),
        (Error::InternalError(s()), "Internal error: x"),
        (Error::MissingColumn(s()), "No such column: x"),
        (
            Error::MissingMetadata,
            "No table metadata found in delta log.",
        ),
        (Error::MissingProtocol, "No protocol found in delta log."),
        (
            Error::MissingMetadataAndProtocol,
            "No table metadata or protocol found in delta log.",
        ),
        (Error::FileAlreadyExists(s()), "File already exists: x"),
        (Error::FileNotFound(s()), "File not found: x"),
    ];
    for (error, message) in cases {
        assert_eq!(error.message(), message);
    }
}

#[test]
fn texts_are_compared_and_built() {
    assert!(same_text("abc", "abc"));
    assert!(!same_text("abc", "abd"));
    assert!(contains_text(&["x".to_string(), "y".to_string()], "y"));
    assert!(!contains_text(&[], "y"));
    assert_eq!(decimal(0), "0");
    assert_eq!(decimal(907), "907");
    assert_eq!(decimal(u64::MAX), u64::MAX.to_string());
    assert_eq!(join_texts("ab", "c"), "abc");
}

#[test]
fn order_of_patches_does_not_matter() {
    let patch = |name: &str, insertions: Vec<Expression>| FieldPatch {
        field_name: name.to_string(),
        insertions,
    };
    let with = |field_patches: Vec<FieldPatch>| {
        Expression::StructPatch(StructPatch {
            prepended_fields: vec![column("a")],
            field_patches,
            appended_fields: vec![],
        })
    };
    let f = || patch("f", vec![long(1), column("b")]);
    let g = || patch("g", vec![long(2)]);
    assert_eq!(with(vec![f(), g()]), with(vec![g(), f()]));
    assert_eq!(
        Predicate::is_null(with(vec![f(), g()])),
        Predicate::is_null(with(vec![g(), f()]))
    );
    assert_eq!(f(), f());
    assert_ne!(f(), g());
    assert_ne!(with(vec![f(), g()]), with(vec![f()]));
    assert_ne!(with(vec![f()]), with(vec![f(), g()]));
    assert_ne!(
        with(vec![f()]),
        with(vec![patch("f", vec![column("b"), long(1)])])
    );
    assert_ne!(with(vec![f()]), with(vec![patch("h", vec![long(1), column("b")])]));
}

#[test]
fn different_expressions_are_not_equal() {
    let schema = |name: &str| {
        Arc::new(StructType::new_unchecked(vec![StructField::nullable(
            name,
            DataType::Primitive(PrimitiveType::Long),
        )]))
    };
    let make = || {
        vec![
            long(1),
            long(2),
            Expression::literal(Scalar::Integer(1)),
            Expression::literal(Scalar::Binary(vec![1])),
            Expression::literal(Scalar::Binary(vec![1, 2])),
            Expression::literal(Scalar::Null(DataType::Primitive(PrimitiveType::Long))),
            Expression::literal(Scalar::Null(DataType::Primitive(PrimitiveType::Date))),
            column("a"),
            column("a.b"),
            Expression::Struct(vec![column("a")], None),
            Expression::Struct(vec![column("a")], Some(Box::new(column("b")))),
            Expression::Unary(UnaryExpressionOp::ToJson, Box::new(column("a"))),
            Expression::Binary(
                BinaryExpressionOp::Plus,
                Box::new(long(1)),
                Box::new(long(2)),
            ),
            Expression::Binary(
                BinaryExpressionOp::Minus,
                Box::new(long(1)),
                Box::new(long(2)),
            ),
            Expression::Variadic(VariadicExpressionOp::Coalesce, vec![column("a")]),
            Expression::Variadic(VariadicExpressionOp::Coalesce, vec![]),
            Expression::Opaque("f".to_string(), vec![]),
            Expression::Opaque("g".to_string(), vec![]),
            Expression::Unknown("f".to_string()),
            Expression::ParseJson(Box::new(column("a")), schema("x")),
            Expression::ParseJson(Box::new(column("a")), schema("y")),
            Expression::MapToStruct(Box::new(column("a"))),
            Expression::Predicate(Box::new(Predicate::is_null(column("a")))),
            Expression::Predicate(Box::new(Predicate::not(Predicate::is_null(column("a"))))),
            Expression::Predicate(Box::new(Predicate::eq(column("a"), long(1)))),
            Expression::Predicate(Box::new(Predicate::lt(column("a"), long(1)))),
            Expression::Predicate(Box::new(Predicate::and_from(vec![]))),
            Expression::Predicate(Box::new(Predicate::or_from(vec![]))),
        ]
    };
    for (i, a) in make().iter().enumerate() {
        for (j, b) in make().iter().enumerate() {
            assert_eq!(a == b, i == j, "{a:?} and {b:?}");
        }
    }
}
