use engine_core::join::{JoinStage, Multiplicity, RelationEdge, ScalarField};
use engine_core::query_arguments::{
    direction, skip, take, AggregationSelection, ConversionError, ModelProjection, MongoQueryArgs,
    OrderBy, OrderByBuilder, PlanBuildError, ProjectedField, QueryArguments, RenderedFilter,
    RenderedQuery, SortOrder,
};
use mongodb::bson::{Bson, Document};

fn field(name: &str) -> ScalarField {
    ScalarField { db_name: name.to_string(), is_list: false }
}

fn order(name: &str, sort_order: SortOrder) -> OrderBy {
    OrderBy { field: field(name), sort_order }
}

fn doc(key: &str, value: i32) -> Document {
    let mut d = Document::new();
    d.insert(key, Bson::Int32(value));
    d
}

fn join(name: &str) -> JoinStage {
    JoinStage::new(
        RelationEdge::new(
            name.to_string(),
            Multiplicity::Single,
            name.to_lowercase(),
            vec![field("fk")],
            vec![field("_id")],
        )
        .unwrap(),
    )
}

fn arguments() -> QueryArguments {
    QueryArguments {
        filter: None,
        order_by: vec![],
        skip: None,
        take: None,
        ignore_skip: false,
        ignore_take: false,
    }
}

fn plan(args: QueryArguments) -> MongoQueryArgs {
    MongoQueryArgs::new(args).unwrap()
}

fn included(names: &[&str]) -> ModelProjection {
    ModelProjection {
        fields: names
            .iter()
            .map(|n| ProjectedField { db_name: n.to_string(), included: true })
            .collect(),
    }
}

fn stages(query: RenderedQuery) -> Vec<String> {
    match query {
        RenderedQuery::Pipeline(stages) => stages.iter().map(|s| format!("{}", s)).collect(),
        RenderedQuery::Find(_) => panic!("rendered as a find operation"),
    }
}

fn operators(query: RenderedQuery) -> Vec<String> {
    match query {
        RenderedQuery::Pipeline(stages) => {
            stages.iter().map(|s| s.keys().next().unwrap().clone()).collect()
        }
        RenderedQuery::Find(_) => panic!("rendered as a find operation"),
    }
}

#[test]
fn direction_table() {
    assert_eq!(direction(SortOrder::Ascending, true), SortOrder::Descending);
    assert_eq!(direction(SortOrder::Descending, true), SortOrder::Ascending);
    assert_eq!(direction(SortOrder::Ascending, false), SortOrder::Ascending);
    assert_eq!(direction(SortOrder::Descending, false), SortOrder::Descending);
}

#[test]
fn skip_is_dropped_only_when_ignored() {
    assert_eq!(skip(Some(5), false), Some(5));
    assert_eq!(skip(Some(5), true), None);
    assert_eq!(skip(None, false), None);
    assert_eq!(skip(None, true), None);
    assert_eq!(skip(Some(0), false), Some(0));
}

#[test]
fn take_strips_the_sign() {
    assert_eq!(take(Some(10), false), Some(10));
    assert_eq!(take(Some(-10), false), Some(10));
    assert_eq!(take(Some(0), false), Some(0));
    assert_eq!(take(Some(-10), true), None);
    assert_eq!(take(None, false), None);
    assert_eq!(take(Some(i64::MAX), false), Some(i64::MAX));
    assert_eq!(take(Some(-i64::MAX), false), Some(i64::MAX));
    assert_eq!(take(Some(i64::MIN), true), None);
}

#[test]
fn negative_take_reads_the_result_from_its_end() {
    let mut args = arguments();
    args.skip = Some(5);
    args.take = Some(-10);
    args.order_by = vec![order("name", SortOrder::Ascending)];
    let plan = plan(args);
    assert_eq!(plan.skip, Some(5));
    assert_eq!(plan.limit, Some(10));
    match plan.finalize().render_stage_sequence() {
        RenderedQuery::Find(find) => {
            assert_eq!(find.skip, Some(5));
            assert_eq!(find.limit, Some(10));
            assert_eq!(format!("{}", find.sort.unwrap()), "{ \"name\": -1 }");
        }
        RenderedQuery::Pipeline(_) => panic!("rendered as a pipeline"),
    }
}

#[test]
fn ignored_take_still_reverses_the_ordering() {
    let mut args = arguments();
    args.take = Some(-10);
    args.ignore_take = true;
    args.order_by = vec![order("name", SortOrder::Descending)];
    let ready = plan(args).finalize();
    assert_eq!(ready.limit(), None);
    assert_eq!(format!("{}", ready.order().as_ref().unwrap()), "{ \"name\": 1 }");
}

#[test]
fn ignore_flags_drop_skip_and_limit() {
    let mut args = arguments();
    args.skip = Some(3);
    args.take = Some(7);
    args.ignore_skip = true;
    args.ignore_take = true;
    let plan = plan(args);
    assert_eq!(plan.skip, None);
    assert_eq!(plan.limit, None);
}

#[test]
fn plan_without_joins_and_aggregations_renders_as_find() {
    let mut args = arguments();
    args.filter = Some(Ok(RenderedFilter { predicate: doc("age", 3), joins: vec![] }));
    args.order_by = vec![order("name", SortOrder::Descending), order("age", SortOrder::Ascending)];
    args.skip = Some(2);
    args.take = Some(4);
    let plan = plan(args).with_model_projection(included(&["name", "age"])).unwrap();
    match plan.finalize().render_stage_sequence() {
        RenderedQuery::Find(find) => {
            assert_eq!(format!("{}", find.filter.unwrap()), "{ \"age\": 3 }");
            assert_eq!(format!("{}", find.sort.unwrap()), "{ \"name\": -1, \"age\": 1 }");
            assert_eq!(find.skip, Some(2));
            assert_eq!(find.limit, Some(4));
            assert_eq!(format!("{}", find.projection.unwrap()), "{ \"name\": 1, \"age\": 1 }");
        }
        RenderedQuery::Pipeline(_) => panic!("rendered as a pipeline"),
    }
}

#[test]
fn empty_plan_renders_as_empty_find() {
    match plan(arguments()).finalize().render_stage_sequence() {
        RenderedQuery::Find(find) => {
            assert!(find.filter.is_none());
            assert!(find.sort.is_none());
            assert!(find.skip.is_none());
            assert!(find.limit.is_none());
            assert!(find.projection.is_none());
        }
        RenderedQuery::Pipeline(_) => panic!("rendered as a pipeline"),
    }
}

#[test]
fn find_and_pipeline_of_a_plain_plan_ask_for_the_same() {
    let build = || {
        let mut args = arguments();
        args.filter = Some(Ok(RenderedFilter { predicate: doc("age", 3), joins: vec![] }));
        args.order_by = vec![order("name", SortOrder::Ascending)];
        args.skip = Some(2);
        args.take = Some(4);
        plan(args).with_model_projection(included(&["name"])).unwrap().finalize()
    };
    let find = build().find_query();
    let pipeline: Vec<String> = build().pipeline_stages().iter().map(|s| format!("{}", s)).collect();
    assert_eq!(
        pipeline,
        vec![
            format!("{{ \"$match\": {} }}", find.filter.unwrap()),
            format!("{{ \"$sort\": {} }}", find.sort.unwrap()),
            format!("{{ \"$skip\": {} }}", find.skip.unwrap()),
            format!("{{ \"$limit\": {} }}", find.limit.unwrap()),
            format!("{{ \"$project\": {} }}", find.projection.unwrap()),
        ]
    );
}

#[test]
fn filter_without_joins_is_the_base_predicate() {
    let mut args = arguments();
    args.filter = Some(Ok(RenderedFilter { predicate: doc("age", 3), joins: vec![] }));
    let plan = plan(args);
    assert_eq!(plan.query, Some(doc("age", 3)));
    assert!(plan.joins.is_empty());
    assert!(plan.join_filters.is_empty());
}

#[test]
fn filter_with_joins_runs_after_the_joins() {
    let mut args = arguments();
    args.filter =
        Some(Ok(RenderedFilter { predicate: doc("Author.age", 3), joins: vec![join("Author")] }));
    let plan = plan(args);
    assert!(plan.query.is_none());
    assert_eq!(plan.joins.len(), 1);
    assert_eq!(plan.join_filters, vec![doc("Author.age", 3)]);
    let ops = operators(plan.finalize().render_stage_sequence());
    assert_eq!(ops, vec!["$lookup", "$match"]);
}

#[test]
fn unrenderable_filter_fails_the_plan_with_its_error() {
    let mut args = arguments();
    args.filter = Some(Err(ConversionError { message: "no such field".to_string() }));
    match MongoQueryArgs::new(args) {
        Err(PlanBuildError::Filter(error)) => assert_eq!(error.message, "no such field"),
        other => panic!("unexpected: {:?}", other),
    }
}

#[test]
fn unrenderable_having_fails_the_plan_with_its_error() {
    let res = plan(arguments())
        .with_having(Some(Err(ConversionError { message: "bad having".to_string() })));
    match res {
        Err(PlanBuildError::Filter(error)) => assert_eq!(error.message, "bad having"),
        other => panic!("unexpected: {:?}", other),
    }
}

#[test]
fn absent_having_leaves_the_plan_alone() {
    let plan = plan(arguments()).with_having(None).unwrap();
    assert!(plan.aggregation_filters.is_empty());
}

#[test]
fn having_is_appended_and_its_joins_are_left_aside() {
    let plan = plan(arguments())
        .with_having(Some(Ok(RenderedFilter { predicate: doc("a", 1), joins: vec![join("X")] })))
        .unwrap()
        .with_having(Some(Ok(RenderedFilter { predicate: doc("b", 2), joins: vec![] })))
        .unwrap();
    assert_eq!(plan.aggregation_filters, vec![doc("a", 1), doc("b", 2)]);
    assert!(plan.joins.is_empty());
}

#[test]
fn count_of_all_rows_over_the_whole_collection() {
    let plan = plan(arguments())
        .with_groupings(vec![], &[AggregationSelection::Count { all: true, fields: vec![] }]);
    assert_eq!(plan.aggregations.len(), 1);
    assert_eq!(
        format!("{}", plan.aggregations[0]),
        "{ \"$group\": { \"_id\": null, \"count_all\": { \"$sum\": 1 } } }"
    );
    assert!(plan.is_group_by_query);
}

#[test]
fn grouping_sets_group_mode_with_and_without_fields() {
    assert!(!plan(arguments()).is_group_by_query);
    assert!(plan(arguments()).with_groupings(vec![], &[]).is_group_by_query);
    assert!(plan(arguments()).with_groupings(vec![field("a")], &[]).is_group_by_query);
    assert!(plan(arguments())
        .with_groupings(vec![], &[AggregationSelection::Sum(vec![field("x")])])
        .is_group_by_query);
}

#[test]
fn average_is_named_by_the_operation_and_applies_the_avg_operator() {
    let plan = plan(arguments())
        .with_groupings(vec![], &[AggregationSelection::Average(vec![field("price")])]);
    assert_eq!(
        format!("{}", plan.aggregations[0]),
        "{ \"$group\": { \"_id\": null, \"average_price\": { \"$avg\": \"$price\" } } }"
    );
    let group = plan.aggregations[0].get_document("$group").unwrap();
    assert!(group.contains_key("average_price"));
    assert!(!group.contains_key("avg_price"));
}

#[test]
fn sum_min_and_max_are_named_by_their_operation() {
    let plan = plan(arguments()).with_groupings(
        vec![],
        &[
            AggregationSelection::Sum(vec![field("price")]),
            AggregationSelection::Min(vec![field("price")]),
            AggregationSelection::Max(vec![field("price")]),
        ],
    );
    assert_eq!(
        format!("{}", plan.aggregations[0]),
        "{ \"$group\": { \"_id\": null, \"sum_price\": { \"$sum\": \"$price\" }, \
         \"min_price\": { \"$min\": \"$price\" }, \"max_price\": { \"$max\": \"$price\" } } }"
    );
}

#[test]
fn sum_grouped_by_one_field() {
    let plan = plan(arguments())
        .with_groupings(vec![field("region")], &[AggregationSelection::Sum(vec![field("amount")])]);
    assert_eq!(plan.aggregations.len(), 1);
    assert_eq!(
        format!("{}", plan.aggregations[0]),
        "{ \"$group\": { \"_id\": { \"region\": \"$region\" }, \"sum_amount\": { \"$sum\": \"$amount\" } } }"
    );
    assert!(plan.is_group_by_query);
}

#[test]
fn every_operator_names_its_accumulators() {
    let plan = plan(arguments()).with_groupings(
        vec![field("a"), field("b")],
        &[
            AggregationSelection::Field(field("a")),
            AggregationSelection::Count { all: false, fields: vec![field("x")] },
            AggregationSelection::Average(vec![field("x"), field("y")]),
            AggregationSelection::Sum(vec![field("x")]),
            AggregationSelection::Min(vec![field("x")]),
            AggregationSelection::Max(vec![field("x")]),
        ],
    );
    assert_eq!(
        format!("{}", plan.aggregations[0]),
        "{ \"$group\": { \"_id\": { \"a\": \"$a\", \"b\": \"$b\" }, \
         \"count_x\": { \"$count\": \"$x\" }, \
         \"average_x\": { \"$avg\": \"$x\" }, \"average_y\": { \"$avg\": \"$y\" }, \
         \"sum_x\": { \"$sum\": \"$x\" }, \
         \"min_x\": { \"$min\": \"$x\" }, \
         \"max_x\": { \"$max\": \"$x\" } } }"
    );
}

#[test]
fn count_all_comes_with_the_per_field_counts() {
    let plan = plan(arguments()).with_groupings(
        vec![],
        &[AggregationSelection::Count { all: true, fields: vec![field("x"), field("y")] }],
    );
    assert_eq!(
        format!("{}", plan.aggregations[0]),
        "{ \"$group\": { \"_id\": null, \"count_all\": { \"$sum\": 1 }, \
         \"count_x\": { \"$count\": \"$x\" }, \"count_y\": { \"$count\": \"$y\" } } }"
    );
}

#[test]
fn an_accumulator_asked_for_twice_is_set_once() {
    let plan = plan(arguments()).with_groupings(
        vec![],
        &[
            AggregationSelection::Sum(vec![field("x")]),
            AggregationSelection::Min(vec![field("x")]),
            AggregationSelection::Sum(vec![field("x")]),
        ],
    );
    assert_eq!(
        format!("{}", plan.aggregations[0]),
        "{ \"$group\": { \"_id\": null, \"sum_x\": { \"$sum\": \"$x\" }, \"min_x\": { \"$min\": \"$x\" } } }"
    );
}

#[test]
fn grouping_without_requests_holds_only_the_key() {
    let plan = plan(arguments()).with_groupings(vec![field("a")], &[]);
    assert_eq!(format!("{}", plan.aggregations[0]), "{ \"$group\": { \"_id\": { \"a\": \"$a\" } } }");
}

#[test]
fn group_mode_stays_once_set() {
    let plan = plan(arguments())
        .with_groupings(vec![field("a")], &[])
        .with_groupings(vec![], &[AggregationSelection::Count { all: true, fields: vec![] }]);
    assert!(plan.is_group_by_query);
    assert_eq!(plan.aggregations.len(), 2);
}

fn paged_plan() -> MongoQueryArgs {
    let mut args = arguments();
    args.filter = Some(Ok(RenderedFilter { predicate: doc("age", 3), joins: vec![] }));
    args.order_by = vec![order("name", SortOrder::Ascending)];
    args.skip = Some(2);
    args.take = Some(4);
    plan(args).with_model_projection(included(&["name"])).unwrap()
}

fn full_plan(by_fields: Vec<ScalarField>) -> RenderedQuery {
    paged_plan()
        .with_groupings(by_fields, &[AggregationSelection::Count { all: true, fields: vec![] }])
        .with_having(Some(Ok(RenderedFilter { predicate: doc("count_all", 1), joins: vec![] })))
        .unwrap()
        .finalize()
        .render_stage_sequence()
}

/// A plan that aggregates without being in group mode: the aggregation stage
/// is put into the plan as it is.
fn summarizing_plan() -> MongoQueryArgs {
    let mut count = Document::new();
    count.insert("$count", Bson::String("rows".to_string()));
    let mut plan = paged_plan()
        .with_having(Some(Ok(RenderedFilter { predicate: doc("rows", 1), joins: vec![] })))
        .unwrap();
    plan.aggregations.push(count);
    assert!(!plan.is_group_by_query);
    plan
}

#[test]
fn aggregation_without_grouping_comes_after_paging() {
    assert_eq!(
        operators(summarizing_plan().finalize().render_stage_sequence()),
        vec!["$match", "$sort", "$skip", "$limit", "$project", "$count", "$match"]
    );
}

#[test]
fn plan_that_does_not_group_renders_every_stage() {
    assert_eq!(
        stages(summarizing_plan().finalize().render_stage_sequence()),
        vec![
            "{ \"$match\": { \"age\": 3 } }",
            "{ \"$sort\": { \"name\": 1 } }",
            "{ \"$skip\": 2 }",
            "{ \"$limit\": 4 }",
            "{ \"$project\": { \"name\": 1 } }",
            "{ \"$count\": \"rows\" }",
            "{ \"$match\": { \"rows\": 1 } }",
        ]
    );
}

#[test]
fn aggregation_with_grouping_comes_before_paging() {
    assert_eq!(
        operators(full_plan(vec![field("region")])),
        vec!["$match", "$group", "$match", "$sort", "$skip", "$limit", "$project"]
    );
}

#[test]
fn aggregation_over_the_whole_result_groups_too() {
    assert_eq!(
        stages(full_plan(vec![])),
        vec![
            "{ \"$match\": { \"age\": 3 } }",
            "{ \"$group\": { \"_id\": null, \"count_all\": { \"$sum\": 1 } } }",
            "{ \"$match\": { \"count_all\": 1 } }",
            "{ \"$sort\": { \"_id.name\": 1 } }",
            "{ \"$skip\": 2 }",
            "{ \"$limit\": 4 }",
            "{ \"$project\": { \"name\": 1 } }",
        ]
    );
}

#[test]
fn grouped_plan_renders_every_stage() {
    assert_eq!(
        stages(full_plan(vec![field("region")])),
        vec![
            "{ \"$match\": { \"age\": 3 } }",
            "{ \"$group\": { \"_id\": { \"region\": \"$region\" }, \"count_all\": { \"$sum\": 1 } } }",
            "{ \"$match\": { \"count_all\": 1 } }",
            "{ \"$sort\": { \"_id.name\": 1 } }",
            "{ \"$skip\": 2 }",
            "{ \"$limit\": 4 }",
            "{ \"$project\": { \"name\": 1 } }",
        ]
    );
}

#[test]
fn skip_and_limit_are_rendered_as_64_bit_numbers() {
    let mut args = arguments();
    args.skip = Some(2);
    args.take = Some(4);
    let ready = plan(args).with_groupings(vec![], &[]).finalize();
    let stages = ready.pipeline_stages();
    assert_eq!(stages.len(), 3);
    assert_eq!(stages[1].get("$skip"), Some(&Bson::Int64(2)));
    assert_eq!(stages[2].get("$limit"), Some(&Bson::Int64(4)));
}

#[test]
fn pipeline_with_everything_keeps_the_canonical_order() {
    let mut args = arguments();
    args.filter =
        Some(Ok(RenderedFilter { predicate: doc("A.x", 1), joins: vec![join("A"), join("B")] }));
    args.order_by = vec![order("name", SortOrder::Ascending)];
    args.skip = Some(1);
    args.take = Some(2);
    let mut accumulating = plan(args)
        .with_model_projection(included(&["name"]))
        .unwrap()
        .with_groupings(vec![], &[AggregationSelection::Count { all: true, fields: vec![] }]);
    accumulating.query = Some(doc("base", 1));
    let rendered = stages(accumulating.finalize().render_stage_sequence());
    assert_eq!(rendered.len(), 9);
    assert_eq!(rendered[0], "{ \"$match\": { \"base\": 1 } }");
    assert!(rendered[1].starts_with("{ \"$lookup\": { \"from\": \"a\""));
    assert!(rendered[2].starts_with("{ \"$lookup\": { \"from\": \"b\""));
    assert_eq!(rendered[3], "{ \"$match\": { \"A.x\": 1 } }");
    assert_eq!(rendered[4], "{ \"$group\": { \"_id\": null, \"count_all\": { \"$sum\": 1 } } }");
    assert_eq!(rendered[5], "{ \"$sort\": { \"_id.name\": 1 } }");
    assert_eq!(rendered[6], "{ \"$skip\": 1 }");
    assert_eq!(rendered[7], "{ \"$limit\": 2 }");
    assert_eq!(rendered[8], "{ \"$project\": { \"name\": 1 } }");
}

#[test]
fn joins_alone_make_a_pipeline() {
    let mut args = arguments();
    args.filter = Some(Ok(RenderedFilter { predicate: doc("A.x", 1), joins: vec![join("A")] }));
    assert_eq!(operators(plan(args).finalize().render_stage_sequence()), vec!["$lookup", "$match"]);
}

#[test]
fn aggregations_alone_make_a_pipeline() {
    let rendered = plan(arguments()).with_groupings(vec![], &[]).finalize().render_stage_sequence();
    assert_eq!(stages(rendered), vec!["{ \"$group\": { \"_id\": null } }"]);
}

#[test]
fn having_without_aggregation_is_not_rendered_in_a_find() {
    let rendered = plan(arguments())
        .with_having(Some(Ok(RenderedFilter { predicate: doc("a", 1), joins: vec![] })))
        .unwrap()
        .finalize()
        .render_stage_sequence();
    assert!(matches!(rendered, RenderedQuery::Find(_)));
}

#[test]
fn ordering_in_group_mode_reads_under_the_group_key() {
    let builder = OrderByBuilder::new(
        vec![order("name", SortOrder::Ascending), order("age", SortOrder::Descending)],
        false,
    );
    let (sort, joins) = builder.build(true);
    assert!(joins.is_empty());
    assert_eq!(format!("{}", sort.unwrap()), "{ \"_id.name\": 1, \"_id.age\": -1 }");
}

#[test]
fn ordering_outside_group_mode_reads_the_field_itself() {
    let builder = OrderByBuilder::new(
        vec![order("name", SortOrder::Ascending), order("age", SortOrder::Descending)],
        false,
    );
    let (sort, joins) = builder.build(false);
    assert!(joins.is_empty());
    assert_eq!(format!("{}", sort.unwrap()), "{ \"name\": 1, \"age\": -1 }");
}

#[test]
fn reversed_ordering_flips_every_direction() {
    let builder = OrderByBuilder::new(
        vec![order("name", SortOrder::Ascending), order("age", SortOrder::Descending)],
        true,
    );
    let (sort, _) = builder.build(false);
    assert_eq!(format!("{}", sort.unwrap()), "{ \"name\": -1, \"age\": 1 }");
}

#[test]
fn sort_directions_are_32_bit_numbers() {
    let (sort, _) = OrderByBuilder::new(vec![order("name", SortOrder::Descending)], false).build(false);
    assert_eq!(sort.unwrap().get("name"), Some(&Bson::Int32(-1)));
}

#[test]
fn no_ordering_gives_no_sort_document() {
    let (sort, joins) = OrderByBuilder::new(vec![], true).build(true);
    assert!(sort.is_none());
    assert!(joins.is_empty());
}

#[test]
fn a_field_ordered_twice_keeps_its_place_and_takes_the_last_direction() {
    let builder = OrderByBuilder::new(
        vec![
            order("name", SortOrder::Ascending),
            order("age", SortOrder::Ascending),
            order("name", SortOrder::Descending),
        ],
        false,
    );
    let (sort, _) = builder.build(false);
    assert_eq!(format!("{}", sort.unwrap()), "{ \"name\": -1, \"age\": 1 }");
}

#[test]
fn ordering_is_resolved_against_the_final_group_mode() {
    let mut args = arguments();
    args.order_by = vec![order("region", SortOrder::Ascending)];
    let ready = plan(args).with_groupings(vec![field("region")], &[]).finalize();
    assert_eq!(format!("{}", ready.order().as_ref().unwrap()), "{ \"_id.region\": 1 }");
    assert!(ready.is_group_by_query());
}

#[test]
fn finalize_adds_no_joins() {
    let mut args = arguments();
    args.filter = Some(Ok(RenderedFilter { predicate: doc("A.x", 1), joins: vec![join("A")] }));
    args.order_by = vec![order("name", SortOrder::Ascending)];
    let ready = plan(args).finalize();
    assert_eq!(ready.joins().len(), 1);
    assert!(ready.query().is_none());
    assert_eq!(ready.join_filters().len(), 1);
    assert!(ready.aggregations().is_empty());
    assert!(ready.aggregation_filters().is_empty());
    assert!(ready.projection().is_none());
    assert_eq!(ready.skip(), None);
}

#[test]
fn projection_lists_the_selected_fields() {
    let plan = plan(arguments())
        .with_model_projection(ModelProjection {
            fields: vec![
                ProjectedField { db_name: "a".to_string(), included: true },
                ProjectedField { db_name: "b".to_string(), included: false },
            ],
        })
        .unwrap();
    let projection = plan.projection.unwrap();
    assert_eq!(format!("{}", projection), "{ \"a\": 1, \"b\": 0 }");
    assert_eq!(projection.get("a"), Some(&Bson::Int32(1)));
}

#[test]
fn a_later_projection_replaces_an_earlier_one() {
    let plan = plan(arguments())
        .with_model_projection(included(&["a", "b"]))
        .unwrap()
        .with_model_projection(included(&["c"]))
        .unwrap();
    assert_eq!(format!("{}", plan.projection.unwrap()), "{ \"c\": 1 }");
}

#[test]
fn a_field_selected_twice_the_same_way_is_no_conflict() {
    let plan = plan(arguments()).with_model_projection(included(&["a", "b", "a"])).unwrap();
    assert_eq!(format!("{}", plan.projection.unwrap()), "{ \"a\": 1, \"b\": 1 }");
}

#[test]
fn conflicting_projection_names_the_fields() {
    let selection = ModelProjection {
        fields: vec![
            ProjectedField { db_name: "a".to_string(), included: true },
            ProjectedField { db_name: "b".to_string(), included: false },
            ProjectedField { db_name: "c".to_string(), included: true },
            ProjectedField { db_name: "b".to_string(), included: true },
            ProjectedField { db_name: "a".to_string(), included: false },
            ProjectedField { db_name: "a".to_string(), included: true },
        ],
    };
    match plan(arguments()).with_model_projection(selection) {
        Err(PlanBuildError::ConflictingProjection(names)) => {
            assert_eq!(names, vec!["a".to_string(), "b".to_string()])
        }
        other => panic!("unexpected: {:?}", other),
    }
}

#[test]
fn empty_projection_is_an_empty_document() {
    let plan = plan(arguments()).with_model_projection(included(&[])).unwrap();
    assert_eq!(format!("{}", plan.projection.unwrap()), "{}");
}

#[test]
fn failed_filter_comes_before_the_window_is_looked_at() {
    let mut args = arguments();
    args.filter = Some(Err(ConversionError { message: "no such field".to_string() }));
    args.take = Some(i64::MIN);
    match MongoQueryArgs::new(args) {
        Err(PlanBuildError::Filter(error)) => assert_eq!(error.message, "no such field"),
        other => panic!("unexpected: {:?}", other),
    }
}
