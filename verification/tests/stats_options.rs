use buoyant_kernel::expressions::ColumnName;
use buoyant_kernel::scan::stats_options::{
    commit_read_schema, commit_read_schema_no_json_stats, StatsOptions, StructStats, ADD_NAME,
    REMOVE_NAME,
};
use buoyant_kernel::schema::{DataType, SchemaRef};
use serde_json::Value;

fn serialize(options: &StatsOptions) -> Value {
    let struct_stats = match &options.struct_stats {
        StructStats::Skip => Value::from("skip"),
        StructStats::Columns(columns) => Value::from_iter(
            columns
                .iter()
                .map(|c| Value::from_iter(c.path().iter().map(|p| p.as_str()))),
        ),
        StructStats::All => Value::from("all"),
    };
    let mut object = serde_json::Map::new();
    object.insert("synthesize_json".to_string(), options.synthesize_json.into());
    object.insert("struct_stats".to_string(), struct_stats);
    object.insert(
        "checkpoint_stats_json_fallback".to_string(),
        options.checkpoint_stats_json_fallback.into(),
    );
    Value::Object(object)
}

fn deserialize(value: &Value) -> StatsOptions {
    let struct_stats = match &value["struct_stats"] {
        Value::Array(columns) => StructStats::Columns(
            columns
                .iter()
                .map(|c| {
                    let path = c.as_array().unwrap().iter();
                    ColumnName::new(path.map(|p| p.as_str().unwrap().to_string()).collect())
                })
                .collect(),
        ),
        other if other == "all" => StructStats::All,
        _ => StructStats::Skip,
    };
    StatsOptions::from_parts(
        value["synthesize_json"].as_bool().unwrap(),
        struct_stats,
        value
            .get("checkpoint_stats_json_fallback")
            .and_then(|v| v.as_bool()),
    )
}

fn action_has_field(schema: &SchemaRef, action_name: &str, field_name: &str) -> bool {
    schema
        .field(action_name)
        .and_then(|field| match field.data_type() {
            DataType::Struct(action) => action.field(field_name),
            _ => None,
        })
        .is_some()
}

#[test]
fn existing_stats_options_enable_checkpoint_json_fallback() {
    let options = [
        StatsOptions::default(),
        StatsOptions::json_only(),
        StatsOptions::all_struct(),
        StatsOptions::struct_columns(vec![ColumnName::new(vec!["id".to_string()])]),
        StatsOptions::all(),
        StatsOptions::none(),
    ];

    assert!(options
        .iter()
        .all(|option| option.checkpoint_stats_json_fallback));
}

#[test]
fn builder_disables_checkpoint_json_fallback_without_changing_projection() {
    let option = StatsOptions::struct_columns(vec![ColumnName::new(vec!["id".to_string()])])
        .with_checkpoint_stats_json_fallback(false);

    assert!(!option.checkpoint_stats_json_fallback);
    assert!(!option.synthesize_json);
    assert!(matches!(option.struct_stats, StructStats::Columns(_)));
}

#[test]
fn stats_options_missing_fallback_field_defaults_true() {
    let mut serialized = serialize(&StatsOptions::all_struct());
    serialized
        .as_object_mut()
        .unwrap()
        .remove("checkpoint_stats_json_fallback");

    let deserialized = deserialize(&serialized);
    assert!(deserialized.checkpoint_stats_json_fallback);

    let configured = StatsOptions::struct_columns(vec![ColumnName::new(vec!["id".to_string()])])
        .with_checkpoint_stats_json_fallback(false);
    assert_eq!(deserialize(&serialize(&configured)), configured);
}

#[test]
fn no_stats_commit_schema_preserves_actions_but_omits_nested_stats() {
    let with_stats = commit_read_schema();
    let without_stats = commit_read_schema_no_json_stats();
    for action_name in [ADD_NAME, REMOVE_NAME] {
        let expected: Vec<_> = match with_stats.field(action_name).unwrap().data_type() {
            DataType::Struct(action) => action
                .fields()
                .iter()
                .filter(|field| field.name() != "stats")
                .map(|field| field.name().to_string())
                .collect(),
            _ => panic!("{action_name} must be a struct"),
        };
        let actual: Vec<_> = match without_stats.field(action_name).unwrap().data_type() {
            DataType::Struct(action) => action
                .fields()
                .iter()
                .map(|field| field.name().to_string())
                .collect(),
            _ => panic!("{action_name} must be a struct"),
        };

        assert_eq!(actual, expected);
        assert!(action_has_field(&with_stats, action_name, "stats"));
        assert!(!action_has_field(&without_stats, action_name, "stats"));
    }
}

#[test]
fn options_differ_in_what_they_ask_for() {
    assert!(StatsOptions::all().synthesize_json);
    assert!(matches!(StatsOptions::all().struct_stats, StructStats::All));
    assert!(!StatsOptions::none().synthesize_json);
    assert!(matches!(
        StatsOptions::none().struct_stats,
        StructStats::Skip
    ));
    assert_eq!(StatsOptions::default(), StatsOptions::json_only());
}
