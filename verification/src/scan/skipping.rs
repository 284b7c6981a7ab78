//! What a scan skips files by, and which statistics it reads.
use vstd::prelude::*;

use crate::expressions::{predicate_references, Path, PredicateModel};
use crate::scan::columns::{has_leaf, physical_path};
use crate::scan::physical_predicate::{
    is_held_as, law_physical_predicate_means_the_same,
    law_predicate_is_used_where_it_mentions_columns, law_static_skip_loses_no_row, usual_literals,
    PhysicalPredicateModel,
};
use crate::scan::state_info::{
    needed_columns, nullable_fields, state_info, StateInfoModel, StatsOutputModel,
};
use crate::scan::stats_schema::{
    are_statistics_on, bound_leaf, is_asked_for, is_data_column, is_inside,
    law_expected_statistics_are_on_data_columns, law_fields_are_split_by_partition,
    law_skipping_statistics_are_on_all_columns, lemma_leaf_of_one,
    lemma_statistics_on_the_same_columns, split_fields,
};
use crate::scan::transform_spec::TransformFieldClassifier;
use crate::schema::{
    fields_filtered, has_field, lemma_fields_filtered, plain_field, DataTypeModel, FieldModel,
    PrimitiveType,
};
use crate::semantics::{holds, Row};
use crate::table_configuration::TableConfigurationModel;

verus! {

/// The predicate on files that a scan has says of a row as files hold it what the predicate of the
/// scan says of the row. A scan skips all files only where its predicate is false of every row. It
/// has no predicate on files where it has none itself, or none that mentions a column.
pub proof fn law_scan_predicate_means_the_same<V, C: TransformFieldClassifier>(
    logical: Seq<FieldModel>,
    config: TableConfigurationModel,
    p: PredicateModel,
    output: StatsOutputModel,
    classifier: C,
    row: Row<V>,
    held: Row<V>,
)
    requires
        is_held_as(row, held, logical, config.column_mapping_mode),
    ensures
        state_info(logical, config, Some(p), output, classifier) matches Ok(s) ==> {
            &&& s.physical_predicate matches PhysicalPredicateModel::Present(q, _) ==> holds(q, held)
                == holds(p, row)
            &&& s.physical_predicate is StaticSkipAll && usual_literals(row) ==> holds(p, row)
                == Some(false)
            &&& s.physical_predicate is Absent ==> forall|c: Path|
                !predicate_references(p).contains(c)
        },
        state_info(logical, config, None, output, classifier) matches Ok(s)
            ==> s.physical_predicate is Absent,
{
    let mode = config.column_mapping_mode;
    law_physical_predicate_means_the_same(p, logical, mode, row, held);
    law_predicate_is_used_where_it_mentions_columns(p, logical, mode);
    if state_info(logical, config, Some(p), output, classifier) matches Ok(s)
        && s.physical_predicate is StaticSkipAll && usual_literals(row) {
        law_static_skip_loses_no_row(p, logical, mode, row);
    }
}

/// Whether files hold the column at `path` where they hold a column that is asked for, or that the
/// predicate mentions, or inside such a column.
pub open spec fn is_requested_or_mentioned(
    requested: Seq<Path>,
    predicate: Option<PredicateModel>,
    config: TableConfigurationModel,
    path: Path,
) -> bool {
    exists|c: Path|
        (requested.contains(c) || (predicate matches Some(p) && predicate_references(p).contains(c)))
            && #[trigger] is_held_around(config, c, path)
}

/// Whether files hold the column `c` of the table at `path`, or `path` leads inside it.
pub open spec fn is_held_around(config: TableConfigurationModel, c: Path, path: Path) -> bool {
    physical_path(config.logical_schema, c, config.column_mapping_mode) matches Some(held)
        && is_inside(held, path)
}

/// Whether `path` leads to the field `f` among the columns of the predicate on files, and does not
/// begin at one by whose partition values files are skipped.
pub open spec fn is_skipped_by_statistics(s: StateInfoModel, path: Path, f: FieldModel) -> bool {
    &&& s.physical_predicate matches PhysicalPredicateModel::Present(_, kept) && has_leaf(
        kept,
        path,
        f,
    )
    &&& !(s.physical_partition_schema matches Some(partition) && has_field(partition, path[0]))
}

/// Which statistics a scan reads. If those on all columns are asked for, whatever its predicate, they
/// are on every column by which the table is not partitioned. If those on some columns are asked for,
/// they are on those of these columns that are asked for, or that its predicate mentions. Otherwise
/// they are on the columns of its predicate that are not partition columns, and there are none
/// without such a column.
pub proof fn law_statistics_of_a_scan<C: TransformFieldClassifier>(
    logical: Seq<FieldModel>,
    config: TableConfigurationModel,
    predicate: Option<PredicateModel>,
    output: StatsOutputModel,
    classifier: C,
)
    ensures
        state_info(logical, config, predicate, output, classifier) matches Ok(s) ==> match output {
            StatsOutputModel::AllColumns => {
                s.physical_stats_schema matches Some(stats) && are_statistics_on(
                    stats,
                    |path: Path, f: FieldModel| is_data_column(config, path, f),
                ) && has_leaf(
                    stats,
                    seq!["tightBounds"@],
                    bound_leaf(
                        seq!["tightBounds"@],
                        DataTypeModel::Primitive(PrimitiveType::Boolean),
                    ),
                )
            },
            StatsOutputModel::Columns(requested) if requested.len() > 0 => {
                s.physical_stats_schema matches Some(stats) && are_statistics_on(
                    stats,
                    |path: Path, f: FieldModel|
                        is_data_column(config, path, f) && is_requested_or_mentioned(
                            requested,
                            predicate,
                            config,
                            path,
                        ),
                ) && has_leaf(
                    stats,
                    seq!["tightBounds"@],
                    bound_leaf(
                        seq!["tightBounds"@],
                        DataTypeModel::Primitive(PrimitiveType::Boolean),
                    ),
                )
            },
            _ => {
                &&& s.physical_stats_schema is Some <==> exists|path: Path, f: FieldModel|
                    #[trigger] is_skipped_by_statistics(s, path, f) && !(f.data_type is Struct)
                &&& s.physical_stats_schema matches Some(stats) ==> are_statistics_on(
                    stats,
                    |path: Path, f: FieldModel| is_skipped_by_statistics(s, path, f),
                )
            },
        },
{
    if let Ok(s) = state_info(logical, config, predicate, output, classifier) {
        match output {
            StatsOutputModel::AllColumns => {
                law_expected_statistics_are_on_data_columns(config, None);
                lemma_statistics_on_the_same_columns(
                    s.physical_stats_schema->0,
                    |path: Path, f: FieldModel|
                        is_asked_for(None, path) && is_data_column(config, path, f),
                    |path: Path, f: FieldModel| is_data_column(config, path, f),
                );
            },
            StatsOutputModel::Columns(requested) if requested.len() > 0 => {
                let mentioned = match predicate {
                    Some(p) => predicate_references(p),
                    None => Set::empty(),
                };
                let all = requested.to_set().union(mentioned);
                let wanted = Some(needed_columns(all, config));
                let a = |path: Path, f: FieldModel|
                    is_asked_for(wanted, path) && is_data_column(config, path, f);
                let b = |path: Path, f: FieldModel|
                    is_data_column(config, path, f) && is_requested_or_mentioned(
                        requested,
                        predicate,
                        config,
                        path,
                    );
                law_expected_statistics_are_on_data_columns(config, wanted);
                assert forall|path: Path, f: FieldModel| path.len() > 0 implies a(path, f)
                    == #[trigger] b(path, f) by {
                    lemma_needed_columns_are_asked_for(requested, predicate, config, path);
                }
                lemma_statistics_on_the_same_columns(s.physical_stats_schema->0, a, b);
            },
            _ => {
                lemma_skipping_statistics_of_a_scan(logical, config, predicate, output, classifier);
            },
        }
    }
}

proof fn lemma_is_asked_for(wanted: Option<Set<Path>>, c: Path, path: Path)
    requires
        wanted is Some,
        wanted->0.contains(c),
        is_inside(c, path),
    ensures
        is_asked_for(wanted, path),
{
    if let Some(columns) = wanted {
        assert(columns.contains(c) && is_inside(c, path));
    }
}

proof fn lemma_needed_columns_are_asked_for(
    requested: Seq<Path>,
    predicate: Option<PredicateModel>,
    config: TableConfigurationModel,
    path: Path,
)
    ensures
        ({
            let mentioned = match predicate {
                Some(p) => predicate_references(p),
                None => Set::empty(),
            };
            is_asked_for(
                Some(needed_columns(requested.to_set().union(mentioned), config)),
                path,
            ) == is_requested_or_mentioned(requested, predicate, config, path)
        }),
{
    let mentioned = match predicate {
        Some(p) => predicate_references(p),
        None => Set::empty(),
    };
    let all = requested.to_set().union(mentioned);
    let needed = needed_columns(all, config);
    let mode = config.column_mapping_mode;
    if is_asked_for(Some(needed), path) {
        let held = choose|held: Path| #[trigger] needed.contains(held) && is_inside(held, path);
        let c = choose|c: Path| #[trigger]
            all.contains(c) && physical_path(config.logical_schema, c, mode) == Some(held);
        assert(requested.contains(c) || mentioned.contains(c));
        assert(is_held_around(config, c, path));
        assert(requested.contains(c) || (predicate matches Some(p) && predicate_references(
            p,
        ).contains(c)));
        assert(is_requested_or_mentioned(requested, predicate, config, path));
    }
    if is_requested_or_mentioned(requested, predicate, config, path) {
        let c = choose|c: Path|
            (requested.contains(c) || (predicate matches Some(p) && predicate_references(
                p,
            ).contains(c))) && #[trigger] is_held_around(config, c, path);
        let held = physical_path(config.logical_schema, c, mode)->0;
        assert(all.contains(c));
        assert(needed.contains(held) && is_inside(held, path));
        lemma_is_asked_for(Some(needed), held, path);
    }
}

proof fn lemma_skipping_statistics_of_a_scan<C: TransformFieldClassifier>(
    logical: Seq<FieldModel>,
    config: TableConfigurationModel,
    predicate: Option<PredicateModel>,
    output: StatsOutputModel,
    classifier: C,
)
    requires
        output is Skip || (output matches StatsOutputModel::Columns(requested) && requested.len()
            == 0),
    ensures
        state_info(logical, config, predicate, output, classifier) matches Ok(s) ==> {
            &&& s.physical_stats_schema is Some <==> exists|path: Path, f: FieldModel| #[trigger]
                is_skipped_by_statistics(s, path, f) && !(f.data_type is Struct)
            &&& s.physical_stats_schema matches Some(stats) ==> are_statistics_on(
                stats,
                |path: Path, f: FieldModel| is_skipped_by_statistics(s, path, f),
            )
        },
{
    if let Ok(s) = state_info(logical, config, predicate, output, classifier) {
        if let PhysicalPredicateModel::Present(_, kept) = s.physical_predicate {
            let data = match s.physical_partition_schema {
                Some(partition) => fields_filtered(kept, partition, false),
                None => kept,
            };
            let a = |path: Path, f: FieldModel| has_leaf(data, path, f);
            let b = |path: Path, f: FieldModel| is_skipped_by_statistics(s, path, f);
            assert forall|path: Path, f: FieldModel| a(path, f) == #[trigger] b(path, f) by {
                if let Some(partition) = s.physical_partition_schema {
                    lemma_leaf_of_filtered(kept, partition, path, f);
                }
                assert(b(path, f) == is_skipped_by_statistics(s, path, f));
            }
            law_skipping_statistics_are_on_all_columns(data);
            if exists|path: Path, f: FieldModel| #[trigger]
                has_leaf(data, path, f) && !(f.data_type is Struct) {
                let (path, f) = choose|path: Path, f: FieldModel| #[trigger]
                    has_leaf(data, path, f) && !(f.data_type is Struct);
                assert(b(path, f));
                assert(is_skipped_by_statistics(s, path, f));
            }
            if exists|path: Path, f: FieldModel| #[trigger]
                is_skipped_by_statistics(s, path, f) && !(f.data_type is Struct) {
                let (path, f) = choose|path: Path, f: FieldModel| #[trigger]
                    is_skipped_by_statistics(s, path, f) && !(f.data_type is Struct);
                assert(b(path, f));
                assert(a(path, f));
                assert(has_leaf(data, path, f));
            }
            if let Some(stats) = s.physical_stats_schema {
                lemma_statistics_on_the_same_columns(stats, a, b);
            }
        }
    }
}

proof fn lemma_leaf_of_filtered(
    kept: Seq<FieldModel>,
    partition: Seq<FieldModel>,
    path: Path,
    f: FieldModel,
)
    ensures
        has_leaf(fields_filtered(kept, partition, false), path, f) <==> has_leaf(kept, path, f)
            && !has_field(partition, path[0]),
{
    let data = fields_filtered(kept, partition, false);
    lemma_leaf_of_one(data, path, f);
    lemma_leaf_of_one(kept, path, f);
    if has_leaf(data, path, f) {
        let g = choose|g: FieldModel| #[trigger] data.contains(g) && has_leaf(seq![g], path, f);
        lemma_fields_filtered(kept, partition, false, g);
        assert(kept.contains(g) && has_leaf(seq![g], path, f));
    }
    if has_leaf(kept, path, f) && !has_field(partition, path[0]) {
        let g = choose|g: FieldModel| #[trigger] kept.contains(g) && has_leaf(seq![g], path, f);
        lemma_fields_filtered(kept, partition, false, g);
        assert(data.contains(g) && has_leaf(seq![g], path, f));
    }
}

/// Whether the table is partitioned by the column that files call `name`.
pub open spec fn is_partitioned_by(config: TableConfigurationModel, name: Seq<char>) -> bool {
    exists|i: int|
        0 <= i < config.logical_schema.len() && i < config.physical_schema.len()
            && config.metadata.partition_columns.contains(config.logical_schema[i].name) && (
        #[trigger] config.physical_schema[i]).name == name
}

/// By which partition columns a scan skips files: by those that its predicate mentions, all of them
/// and no other. Each of them may be null, and has the type that files give it.
pub proof fn law_partition_columns_of_a_scan<C: TransformFieldClassifier>(
    logical: Seq<FieldModel>,
    config: TableConfigurationModel,
    predicate: Option<PredicateModel>,
    output: StatsOutputModel,
    classifier: C,
    leaf: FieldModel,
)
    ensures
        state_info(logical, config, predicate, output, classifier) matches Ok(s) ==> {
            &&& (s.physical_partition_schema matches Some(partition) && partition.contains(leaf))
                <==> (s.physical_predicate matches PhysicalPredicateModel::Present(_, kept)
                && exists|f: FieldModel| #[trigger]
                kept.contains(f) && is_partitioned_by(config, f.name) && leaf == bound_leaf(
                    seq![f.name],
                    f.data_type,
                ))
            &&& s.physical_partition_schema matches Some(partition) ==> partition.len() > 0
        },
{
    if let Ok(s) = state_info(logical, config, predicate, output, classifier) {
        if let PhysicalPredicateModel::Present(_, kept) = s.physical_predicate {
            let all = split_fields(config, true);
            let filtered = fields_filtered(kept, all, true);
            assert forall|name: Seq<char>| has_field(all, name) == #[trigger] is_partitioned_by(
                config,
                name,
            ) by {
                lemma_partition_names(config, name);
            }
            if let Some(partition) = s.physical_partition_schema {
                assert(partition == nullable_fields(filtered));
                if partition.contains(leaf) {
                    let k = choose|k: int| 0 <= k < partition.len() && partition[k] == leaf;
                    let f = filtered[k];
                    assert(filtered.contains(f));
                    lemma_fields_filtered(kept, all, true, f);
                    assert(leaf == plain_field(f.name, f.data_type, true));
                    assert(is_partitioned_by(config, f.name));
                    assert(kept.contains(f) && leaf == bound_leaf(seq![f.name], f.data_type));
                }
            }
            if exists|f: FieldModel| #[trigger]
                kept.contains(f) && is_partitioned_by(config, f.name) && leaf == bound_leaf(
                    seq![f.name],
                    f.data_type,
                ) {
                let f = choose|f: FieldModel| #[trigger]
                    kept.contains(f) && is_partitioned_by(config, f.name) && leaf == bound_leaf(
                        seq![f.name],
                        f.data_type,
                    );
                lemma_fields_filtered(kept, all, true, f);
                assert(has_field(all, f.name));
                let k = choose|k: int| 0 <= k < filtered.len() && filtered[k] == f;
                let i = choose|i: int|
                    0 <= i < config.logical_schema.len() && i < config.physical_schema.len()
                        && config.metadata.partition_columns.contains(
                        config.logical_schema[i].name,
                    ) && (#[trigger] config.physical_schema[i]).name == f.name;
                assert(config.metadata.partition_columns.len() > 0);
                assert(all.len() > 0);
                let partition = s.physical_partition_schema->0;
                assert(partition == nullable_fields(filtered));
                assert(partition[k] == leaf);
            }
        }
    }
}

proof fn lemma_partition_names(config: TableConfigurationModel, name: Seq<char>)
    ensures
        has_field(split_fields(config, true), name) == is_partitioned_by(config, name),
{
    let all = split_fields(config, true);
    if has_field(all, name) {
        let k = choose|k: int| 0 <= k < all.len() && (#[trigger] all[k]).name == name;
        assert(all.contains(all[k]));
        law_fields_are_split_by_partition(config, true, all[k]);
    }
    if is_partitioned_by(config, name) {
        let i = choose|i: int|
            0 <= i < config.logical_schema.len() && i < config.physical_schema.len()
                && config.metadata.partition_columns.contains(config.logical_schema[i].name) && (
            #[trigger] config.physical_schema[i]).name == name;
        let g = config.physical_schema[i];
        law_fields_are_split_by_partition(config, true, g);
        let k = choose|k: int| 0 <= k < all.len() && all[k] == g;
        assert(all[k].name == name);
    }
}

} // verus!
