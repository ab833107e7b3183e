//! The query plan: what a query asks for, gathered step by step, then rendered
//! either as one find operation or as an ordered list of pipeline stages.
//!
//! A [`MongoQueryArgs`] is a plan under construction. [`MongoQueryArgs::finalize`]
//! resolves its ordering and gives a [`FinalizedQueryArgs`], which can only be
//! rendered: a plan is finalized once because finalizing consumes it.

use crate::document::{
    bson_document, bson_int32, bson_int64, bson_null, bson_string, bson_value, doc_entries,
    doc_extend, doc_insert, has_key, lemma_put_all_concat, lemma_put_all_one, lemma_stages_push,
    pairs_of, put, put_all, single_entry, stages_of, Entries, Value,
};
use crate::join::{
    field_ref, fields_of, lemma_nested_lookups_in_preorder, lookup_stage, nested_stages, nodes_of,
    pipeline_lookups, preorder_names_all, FieldModel, JoinNode, JoinStage, ScalarField,
};
use crate::text::{joined, strings_of};
use mongodb::bson::{Bson, Document};
use vstd::prelude::*;

verus! {

/// The direction in which a field is ordered.
#[derive(Clone, Copy, Debug, PartialEq, Eq, Structural)]
pub enum SortOrder {
    Ascending,
    Descending,
}

/// The direction that is rendered for a requested one: the opposite where the
/// result is read from its end, the same where it is not.
pub open spec fn spec_direction(sort_order: SortOrder, reversed: bool) -> SortOrder {
    if reversed {
        match sort_order {
            SortOrder::Ascending => SortOrder::Descending,
            SortOrder::Descending => SortOrder::Ascending,
        }
    } else {
        sort_order
    }
}

/// The number a sort document gives a direction: 1 ascending, -1 descending.
pub open spec fn sort_number(sort_order: SortOrder) -> i32 {
    match sort_order {
        SortOrder::Ascending => 1i32,
        SortOrder::Descending => -1i32,
    }
}

/// The direction to render for a requested one.
pub fn direction(sort_order: SortOrder, reversed: bool) -> (res: SortOrder)
    ensures
        res == spec_direction(sort_order, reversed),
{
    match (sort_order, reversed) {
        (SortOrder::Ascending, true) => SortOrder::Descending,
        (SortOrder::Descending, true) => SortOrder::Ascending,
        (SortOrder::Ascending, false) => SortOrder::Ascending,
        (SortOrder::Descending, false) => SortOrder::Descending,
    }
}

/// Reversing twice gives the requested direction back, and reversing once
/// never does.
pub proof fn lemma_direction_reverses(sort_order: SortOrder)
    ensures
        spec_direction(sort_order, false) == sort_order,
        spec_direction(sort_order, true) != sort_order,
        spec_direction(spec_direction(sort_order, true), true) == sort_order,
        spec_direction(SortOrder::Ascending, true) == SortOrder::Descending,
        spec_direction(SortOrder::Descending, true) == SortOrder::Ascending,
{
}

/// One field to order by, with its direction.
#[derive(Debug)]
pub struct OrderBy {
    pub field: ScalarField,
    pub sort_order: SortOrder,
}

/// An ordering request as a mathematical value.
pub struct OrderModel {
    pub field: FieldModel,
    pub sort_order: SortOrder,
}

impl View for OrderBy {
    type V = OrderModel;

    open spec fn view(&self) -> OrderModel {
        OrderModel { field: self.field@, sort_order: self.sort_order }
    }
}

/// The ordering requests of a list, one for one.
pub open spec fn orders_of(order_bys: Seq<OrderBy>) -> Seq<OrderModel> {
    order_bys.map_values(|o: OrderBy| o@)
}

/// The ordering that was asked for: the fields with their directions, and
/// whether the result is read from its end.
#[verifier::ext_equal]
pub struct OrderSpec {
    pub order_bys: Seq<OrderModel>,
    pub reversed: bool,
}

/// Where an ordered field is found: under the group key in a grouped result,
/// at the top level otherwise.
pub open spec fn order_path(field: Seq<char>, group_mode: bool) -> Seq<char> {
    if group_mode {
        "_id."@ + field
    } else {
        field
    }
}

/// The entries that the ordering requests set in the sort document, one per
/// request, in request order.
pub open spec fn sort_pairs(order: OrderSpec, group_mode: bool) -> Entries {
    Seq::new(
        order.order_bys.len(),
        |i: int|
            (
                order_path(order.order_bys[i].field.name, group_mode),
                Value::Int32(sort_number(spec_direction(order.order_bys[i].sort_order, order.reversed))),
            ),
    )
}

/// The sort document of an ordering: none where nothing was asked for, else
/// the requests set one after the other.
pub open spec fn sort_document(order: OrderSpec, group_mode: bool) -> Option<Entries> {
    if order.order_bys.len() == 0 {
        None
    } else {
        Some(put_all(Seq::empty(), sort_pairs(order, group_mode)))
    }
}

/// What a document that may be absent holds.
pub open spec fn entries_opt(doc: Option<Document>) -> Option<Entries> {
    match doc {
        Some(d) => Some(doc_entries(d)),
        None => None,
    }
}

/// Builds the sort document. Building is put off until the rest of the plan is
/// known, because the paths of the fields depend on whether the plan groups.
#[derive(Debug)]
pub struct OrderByBuilder {
    order_bys: Vec<OrderBy>,
    reverse: bool,
}

impl View for OrderByBuilder {
    type V = OrderSpec;

    closed spec fn view(&self) -> OrderSpec {
        OrderSpec { order_bys: orders_of(self.order_bys@), reversed: self.reverse }
    }
}

impl OrderByBuilder {
    pub fn new(order_bys: Vec<OrderBy>, reverse: bool) -> (res: Self)
        ensures
            res@ == (OrderSpec { order_bys: orders_of(order_bys@), reversed: reverse }),
    {
        Self { order_bys, reverse }
    }

    /// Renders the sort document and names the joins that the ordering needs.
    /// `is_group_by` says that the ordering is over groups, whose fields lie
    /// under the group key. No ordering needs a join.
    pub fn build(self, is_group_by: bool) -> (res: (Option<Document>, Vec<JoinStage>))
        ensures
            entries_opt(res.0) == sort_document(self@, is_group_by),
            res.1@.len() == 0,
    {
        if self.order_bys.len() == 0 {
            return (None, Vec::new());
        }
        let ghost pairs = sort_pairs(self@, is_group_by);
        let mut order_doc = Document::new();
        let mut i: usize = 0;
        assert(pairs.take(0) =~= Seq::<(Seq<char>, Value)>::empty());
        while i < self.order_bys.len()
            invariant
                i <= self.order_bys@.len(),
                pairs == sort_pairs(self@, is_group_by),
                doc_entries(order_doc) == put_all(Seq::empty(), pairs.take(i as int)),
            decreases self.order_bys@.len() - i,
        {
            let order_by = &self.order_bys[i];
            let field = if is_group_by {
                joined("_id.", order_by.field.db_name.as_str())
            } else {
                order_by.field.db_name.clone()
            };
            let number: i32 = match direction(order_by.sort_order, self.reverse) {
                SortOrder::Ascending => 1,
                SortOrder::Descending => -1,
            };
            let value = bson_int32(number);
            proof {
                assert(self@.order_bys[i as int] == order_by@);
                assert(pairs.take(i + 1).drop_last() =~= pairs.take(i as int));
                assert(pairs.take(i + 1).last() == (field@, bson_value(value)));
            }
            doc_insert(&mut order_doc, field, value);
            i += 1;
        }
        assert(pairs.take(i as int) =~= pairs);
        (Some(order_doc), Vec::new())
    }
}

/// The number of leading documents to leave out: none when the caller asked to
/// ignore skipping, else what was asked for.
pub open spec fn spec_skip(count: Option<i64>, ignore: bool) -> Option<i64> {
    if ignore {
        None
    } else {
        count
    }
}

/// The size of the result window: none when the caller asked to ignore it, else
/// the magnitude of what was asked for. The sign only says which end of the
/// result the window is taken from.
pub open spec fn spec_take(count: Option<i64>, ignore: bool) -> Option<i64> {
    if ignore {
        None
    } else {
        match count {
            Some(t) => Some(if t < 0 { (-t) as i64 } else { t }),
            None => None,
        }
    }
}

/// Whether a requested window is taken from the end of the result.
pub open spec fn spec_reversed(count: Option<i64>) -> bool {
    match count {
        Some(t) => t < 0,
        None => false,
    }
}

pub fn skip(count: Option<i64>, ignore: bool) -> (res: Option<i64>)
    ensures
        res == spec_skip(count, ignore),
{
    if ignore {
        None
    } else {
        count
    }
}

/// The magnitude of a window has to fit: the most negative number has none.
pub fn take(count: Option<i64>, ignore: bool) -> (res: Option<i64>)
    requires
        !ignore ==> count != Some(i64::MIN),
    ensures
        res == spec_take(count, ignore),
        res matches Some(n) ==> n >= 0,
{
    if ignore {
        None
    } else {
        match count {
            Some(t) => Some(if t < 0 { -t } else { t }),
            None => None,
        }
    }
}

/// A filter as its compiler hands it over: the predicate, and the joins that
/// the predicate reads from.
#[derive(Debug)]
pub struct RenderedFilter {
    pub predicate: Document,
    pub joins: Vec<JoinStage>,
}

/// The failure of the filter compiler on a filter it cannot render.
#[derive(Debug)]
pub struct ConversionError {
    pub message: String,
}

/// Why a plan could not be built.
#[derive(Debug)]
pub enum PlanBuildError {
    /// A filter could not be rendered; the compiler's error is handed on as it
    /// came.
    Filter(ConversionError),
    /// The projection selects these fields both in and out.
    ConflictingProjection(Vec<String>),
}

/// What a query asks for.
#[derive(Debug)]
pub struct QueryArguments {
    /// The filter, compiled: absent, rendered, or failed.
    pub filter: Option<Result<RenderedFilter, ConversionError>>,
    pub order_by: Vec<OrderBy>,
    pub skip: Option<i64>,
    /// The size of the window; a negative number takes it from the end.
    pub take: Option<i64>,
    pub ignore_skip: bool,
    pub ignore_take: bool,
}

/// A plan under construction, as a mathematical value.
#[verifier::ext_equal]
pub struct QueryPlan {
    /// The predicate that runs before the joins.
    pub query: Option<Entries>,
    pub joins: Seq<JoinNode>,
    /// The predicates that read joined data and so run after the joins.
    pub join_filters: Seq<Entries>,
    pub aggregations: Seq<Entries>,
    /// The predicates over the aggregated documents.
    pub aggregation_filters: Seq<Entries>,
    pub order: OrderSpec,
    pub skip: Option<i64>,
    pub limit: Option<i64>,
    pub projection: Option<Entries>,
    /// Whether the results are groups rather than documents.
    pub group_mode: bool,
}

/// A plan whose ordering is resolved, as a mathematical value.
#[verifier::ext_equal]
pub struct FinalizedPlan {
    pub query: Option<Entries>,
    pub joins: Seq<JoinNode>,
    pub join_filters: Seq<Entries>,
    pub aggregations: Seq<Entries>,
    pub aggregation_filters: Seq<Entries>,
    /// The sort document, where an ordering was asked for.
    pub order: Option<Entries>,
    pub skip: Option<i64>,
    pub limit: Option<i64>,
    pub projection: Option<Entries>,
    pub group_mode: bool,
}

/// What a query asks of the document store: a plan under construction.
#[derive(Debug)]
pub struct MongoQueryArgs {
    /// The filter that runs before the joins.
    pub query: Option<Document>,
    /// The joins.
    pub joins: Vec<JoinStage>,
    /// Filters that can only run after the joins have added what they read.
    pub join_filters: Vec<Document>,
    /// Aggregation stages.
    pub aggregations: Vec<Document>,
    /// Filters that can only run after the aggregations.
    pub aggregation_filters: Vec<Document>,
    /// The ordering, not yet rendered.
    pub order_builder: OrderByBuilder,
    /// The number of documents to leave out at the start of the result.
    pub skip: Option<i64>,
    /// The number of documents to take from the result.
    pub limit: Option<i64>,
    /// The projection that scopes down the returned fields.
    pub projection: Option<Document>,
    /// Whether the aggregation groups: then sort, skip and limit apply to the
    /// groups, not to the documents that are aggregated.
    pub is_group_by_query: bool,
}

impl View for MongoQueryArgs {
    type V = QueryPlan;

    open spec fn view(&self) -> QueryPlan {
        QueryPlan {
            query: entries_opt(self.query),
            joins: nodes_of(self.joins@),
            join_filters: stages_of(self.join_filters@),
            aggregations: stages_of(self.aggregations@),
            aggregation_filters: stages_of(self.aggregation_filters@),
            order: self.order_builder@,
            skip: self.skip,
            limit: self.limit,
            projection: entries_opt(self.projection),
            group_mode: self.is_group_by_query,
        }
    }
}

/// A plan that is ready to be rendered. Nothing can change it any more: it
/// can be read, and it can be rendered.
#[derive(Debug)]
pub struct FinalizedQueryArgs {
    query: Option<Document>,
    joins: Vec<JoinStage>,
    join_filters: Vec<Document>,
    aggregations: Vec<Document>,
    aggregation_filters: Vec<Document>,
    order: Option<Document>,
    skip: Option<i64>,
    limit: Option<i64>,
    projection: Option<Document>,
    is_group_by_query: bool,
}

impl View for FinalizedQueryArgs {
    type V = FinalizedPlan;

    closed spec fn view(&self) -> FinalizedPlan {
        FinalizedPlan {
            query: entries_opt(self.query),
            joins: nodes_of(self.joins@),
            join_filters: stages_of(self.join_filters@),
            aggregations: stages_of(self.aggregations@),
            aggregation_filters: stages_of(self.aggregation_filters@),
            order: entries_opt(self.order),
            skip: self.skip,
            limit: self.limit,
            projection: entries_opt(self.projection),
            group_mode: self.is_group_by_query,
        }
    }
}

/// A find operation: everything a plan without joins and aggregations asks
/// for.
#[derive(Debug)]
pub struct FindQuery {
    pub filter: Option<Document>,
    pub projection: Option<Document>,
    pub sort: Option<Document>,
    pub skip: Option<i64>,
    pub limit: Option<i64>,
}

/// A find operation as a mathematical value.
#[verifier::ext_equal]
pub struct FindModel {
    pub filter: Option<Entries>,
    pub projection: Option<Entries>,
    pub sort: Option<Entries>,
    pub skip: Option<i64>,
    pub limit: Option<i64>,
}

impl View for FindQuery {
    type V = FindModel;

    open spec fn view(&self) -> FindModel {
        FindModel {
            filter: entries_opt(self.filter),
            projection: entries_opt(self.projection),
            sort: entries_opt(self.sort),
            skip: self.skip,
            limit: self.limit,
        }
    }
}

/// A rendered plan: one find operation, or the stages of a pipeline.
#[derive(Debug)]
pub enum RenderedQuery {
    Find(FindQuery),
    Pipeline(Vec<Document>),
}

/// A rendered plan as a mathematical value.
#[verifier::ext_equal]
pub enum RenderedModel {
    Find(FindModel),
    Pipeline(Seq<Entries>),
}

impl View for RenderedQuery {
    type V = RenderedModel;

    open spec fn view(&self) -> RenderedModel {
        match self {
            RenderedQuery::Find(find) => RenderedModel::Find(find@),
            RenderedQuery::Pipeline(stages) => RenderedModel::Pipeline(stages_of(stages@)),
        }
    }
}

/// The plan that the arguments start from.
///
/// A filter that reads joined data cannot run first: its predicate goes behind
/// the joins, and the joins it needs become the plan's joins. A filter without
/// joins is the base predicate.
pub open spec fn initial_plan(args: QueryArguments) -> QueryPlan {
    let filter = match args.filter {
        Some(Ok(filter)) => Some(filter),
        _ => None,
    };
    let deferred = filter matches Some(f) && f.joins@.len() > 0;
    QueryPlan {
        query: match filter {
            Some(f) => if deferred {
                None
            } else {
                Some(doc_entries(f.predicate))
            },
            None => None,
        },
        joins: match filter {
            Some(f) => nodes_of(f.joins@),
            None => Seq::empty(),
        },
        join_filters: match filter {
            Some(f) => if deferred {
                seq![doc_entries(f.predicate)]
            } else {
                Seq::empty()
            },
            None => Seq::empty(),
        },
        aggregations: Seq::empty(),
        aggregation_filters: Seq::empty(),
        order: OrderSpec { order_bys: orders_of(args.order_by@), reversed: spec_reversed(args.take) },
        skip: spec_skip(args.skip, args.ignore_skip),
        limit: spec_take(args.take, args.ignore_take),
        projection: None,
        group_mode: false,
    }
}

/// The plan with its ordering resolved. Resolving it adds no joins.
pub open spec fn finalized(plan: QueryPlan) -> FinalizedPlan {
    FinalizedPlan {
        query: plan.query,
        joins: plan.joins,
        join_filters: plan.join_filters,
        aggregations: plan.aggregations,
        aggregation_filters: plan.aggregation_filters,
        order: sort_document(plan.order, plan.group_mode),
        skip: plan.skip,
        limit: plan.limit,
        projection: plan.projection,
        group_mode: plan.group_mode,
    }
}

/// A stage of one operator over one value.
pub open spec fn stage(operator: Seq<char>, value: Value) -> Entries {
    seq![(operator, value)]
}

/// The stage of an operator over a value that may be absent: no stage where it
/// is.
pub open spec fn optional_stage(operator: Seq<char>, value: Option<Value>) -> Seq<Entries> {
    match value {
        Some(v) => seq![stage(operator, v)],
        None => Seq::empty(),
    }
}

/// A document that may be absent, as a value.
pub open spec fn document_value(entries: Option<Entries>) -> Option<Value> {
    match entries {
        Some(e) => Some(Value::Document(e)),
        None => None,
    }
}

/// A number that may be absent, as a value.
pub open spec fn number_value(n: Option<i64>) -> Option<Value> {
    match n {
        Some(n) => Some(Value::Int64(n)),
        None => None,
    }
}

/// The predicates as match stages, one for one.
pub open spec fn match_stages(filters: Seq<Entries>) -> Seq<Entries> {
    Seq::new(filters.len(), |i: int| stage("$match"@, Value::Document(filters[i])))
}

/// The lookup stages of the joins, one for one.
pub open spec fn join_stages(joins: Seq<JoinNode>) -> Seq<Entries> {
    Seq::new(joins.len(), |i: int| lookup_stage(joins[i]))
}

/// The stages that every pipeline starts with: the base predicate, the joins,
/// then the predicates that read joined data.
pub open spec fn head_stages(plan: FinalizedPlan) -> Seq<Entries> {
    optional_stage("$match"@, document_value(plan.query)) + join_stages(plan.joins) + match_stages(
        plan.join_filters,
    )
}

/// The stages that aggregate: the aggregation stages, then the predicates over
/// what they produce.
pub open spec fn aggregation_stages(plan: FinalizedPlan) -> Seq<Entries> {
    plan.aggregations + match_stages(plan.aggregation_filters)
}

/// The stages that order, page and project: sort, skip, limit, projection, each
/// only where the plan has it.
pub open spec fn window_stages(plan: FinalizedPlan) -> Seq<Entries> {
    optional_stage("$sort"@, document_value(plan.order)) + optional_stage(
        "$skip"@,
        number_value(plan.skip),
    ) + optional_stage("$limit"@, number_value(plan.limit)) + optional_stage(
        "$project"@,
        document_value(plan.projection),
    )
}

/// The pipeline of a plan.
///
/// Where the plan groups, ordering and paging apply to the groups, so the
/// aggregation comes first. Where it does not, the aggregation summarizes the
/// ordered and paged documents, so it comes last.
pub open spec fn pipeline(plan: FinalizedPlan) -> Seq<Entries> {
    if plan.group_mode {
        head_stages(plan) + aggregation_stages(plan) + window_stages(plan)
    } else {
        head_stages(plan) + window_stages(plan) + aggregation_stages(plan)
    }
}

/// The find operation of a plan.
pub open spec fn find_query(plan: FinalizedPlan) -> FindModel {
    FindModel {
        filter: plan.query,
        projection: plan.projection,
        sort: plan.order,
        skip: plan.skip,
        limit: plan.limit,
    }
}

/// Whether a plan is rendered as a find operation: it is where it neither
/// joins nor aggregates.
pub open spec fn renders_as_find(plan: FinalizedPlan) -> bool {
    plan.joins.len() == 0 && plan.aggregations.len() == 0
}

/// What a plan renders to.
pub open spec fn rendered(plan: FinalizedPlan) -> RenderedModel {
    if renders_as_find(plan) {
        RenderedModel::Find(find_query(plan))
    } else {
        RenderedModel::Pipeline(pipeline(plan))
    }
}

fn push_matches(stages: &mut Vec<Document>, filters: Vec<Document>)
    ensures
        stages_of(final(stages)@) == stages_of(old(stages)@) + match_stages(stages_of(filters@)),
{
    let ghost before = stages_of(stages@);
    let ghost all = filters@;
    let ghost wanted = match_stages(stages_of(all));
    assert(wanted.take(0) =~= Seq::<Entries>::empty());
    assert(before + wanted.take(0) =~= before);
    for filter in it: filters
        invariant
            it.seq() == all,
            wanted == match_stages(stages_of(all)),
            stages_of(stages@) == before + wanted.take(it.index() as int),
    {
        let ghost n = it.index() as int;
        let matching = single_entry("$match", bson_document(filter));
        proof {
            lemma_stages_push(stages@, matching);
            assert(stages_of(all)[n] == doc_entries(filter));
            assert((before + wanted.take(n)).push(doc_entries(matching)) =~= before + wanted.take(n + 1));
        }
        stages.push(matching);
    }
    assert(wanted.take(all.len() as int) =~= wanted);
}

fn push_joins(stages: &mut Vec<Document>, joins: &Vec<JoinStage>)
    ensures
        stages_of(final(stages)@) == stages_of(old(stages)@) + join_stages(nodes_of(joins@)),
{
    let ghost before = stages_of(stages@);
    let ghost wanted = join_stages(nodes_of(joins@));
    assert(before + wanted.take(0) =~= before);
    let mut i: usize = 0;
    while i < joins.len()
        invariant
            i <= joins@.len(),
            wanted == join_stages(nodes_of(joins@)),
            stages_of(stages@) == before + wanted.take(i as int),
        decreases joins@.len() - i,
    {
        let (join, unwind) = joins[i].build();
        proof {
            lemma_stages_push(stages@, join);
            assert(nodes_of(joins@)[i as int] == joins@[i as int]@);
            assert((before + wanted.take(i as int)).push(doc_entries(join)) =~= before + wanted.take(i + 1));
        }
        stages.push(join);
        match unwind {
            Some(unwind) => {
                stages.push(unwind);
            },
            None => {},
        }
        i += 1;
    }
    assert(wanted.take(i as int) =~= wanted);
}

fn push_document_stage(stages: &mut Vec<Document>, operator: &str, doc: Option<Document>)
    ensures
        stages_of(final(stages)@) == stages_of(old(stages)@) + optional_stage(
            operator@,
            document_value(entries_opt(doc)),
        ),
{
    match doc {
        Some(doc) => {
            let stage = single_entry(operator, bson_document(doc));
            proof {
                lemma_stages_push(stages@, stage);
                assert(stages_of(stages@).push(doc_entries(stage)) =~= stages_of(stages@) + optional_stage(
                    operator@,
                    document_value(entries_opt(Some(doc))),
                ));
            }
            stages.push(stage);
        },
        None => {
            assert(stages_of(stages@) + Seq::<Entries>::empty() =~= stages_of(stages@));
        },
    }
}

fn push_number_stage(stages: &mut Vec<Document>, operator: &str, n: Option<i64>)
    ensures
        stages_of(final(stages)@) == stages_of(old(stages)@) + optional_stage(operator@, number_value(n)),
{
    match n {
        Some(n) => {
            let stage = single_entry(operator, bson_int64(n));
            proof {
                lemma_stages_push(stages@, stage);
                assert(stages_of(stages@).push(doc_entries(stage)) =~= stages_of(stages@) + optional_stage(
                    operator@,
                    number_value(Some(n)),
                ));
            }
            stages.push(stage);
        },
        None => {
            assert(stages_of(stages@) + Seq::<Entries>::empty() =~= stages_of(stages@));
        },
    }
}

fn push_aggregations(stages: &mut Vec<Document>, aggregations: Vec<Document>, filters: Vec<Document>)
    ensures
        stages_of(final(stages)@) == stages_of(old(stages)@) + (stages_of(aggregations@) + match_stages(
            stages_of(filters@),
        )),
{
    let ghost before = stages_of(stages@);
    let ghost added = aggregations@;
    let mut aggregations = aggregations;
    stages.append(&mut aggregations);
    assert(stages_of(stages@) =~= before + stages_of(added));
    push_matches(stages, filters);
    assert(before + stages_of(added) + match_stages(stages_of(filters@)) =~= before + (stages_of(added)
        + match_stages(stages_of(filters@))));
}

impl FinalizedQueryArgs {
    /// The base predicate.
    pub fn query(&self) -> (res: &Option<Document>)
        ensures
            entries_opt(*res) == self@.query,
    {
        &self.query
    }

    /// The joins.
    pub fn joins(&self) -> (res: &Vec<JoinStage>)
        ensures
            nodes_of(res@) == self@.joins,
    {
        &self.joins
    }

    /// The predicates that run after the joins.
    pub fn join_filters(&self) -> (res: &Vec<Document>)
        ensures
            stages_of(res@) == self@.join_filters,
    {
        &self.join_filters
    }

    /// The aggregation stages.
    pub fn aggregations(&self) -> (res: &Vec<Document>)
        ensures
            stages_of(res@) == self@.aggregations,
    {
        &self.aggregations
    }

    /// The predicates over the aggregated documents.
    pub fn aggregation_filters(&self) -> (res: &Vec<Document>)
        ensures
            stages_of(res@) == self@.aggregation_filters,
    {
        &self.aggregation_filters
    }

    /// The sort document.
    pub fn order(&self) -> (res: &Option<Document>)
        ensures
            entries_opt(*res) == self@.order,
    {
        &self.order
    }

    /// The number of documents to leave out.
    pub fn skip(&self) -> (res: Option<i64>)
        ensures
            res == self@.skip,
    {
        self.skip
    }

    /// The number of documents to take.
    pub fn limit(&self) -> (res: Option<i64>)
        ensures
            res == self@.limit,
    {
        self.limit
    }

    /// The projection.
    pub fn projection(&self) -> (res: &Option<Document>)
        ensures
            entries_opt(*res) == self@.projection,
    {
        &self.projection
    }

    /// Whether the results are groups.
    pub fn is_group_by_query(&self) -> (res: bool)
        ensures
            res == self@.group_mode,
    {
        self.is_group_by_query
    }

    /// The plan as one find operation.
    pub fn find_query(self) -> (res: FindQuery)
        ensures
            res@ == find_query(self@),
    {
        FindQuery {
            filter: self.query,
            projection: self.projection,
            sort: self.order,
            skip: self.skip,
            limit: self.limit,
        }
    }

    /// The plan as the stages of a pipeline.
    pub fn pipeline_stages(self) -> (stages: Vec<Document>)
        ensures
            stages_of(stages@) == pipeline(self@),
    {
        let ghost plan = self@;
        let mut stages: Vec<Document> = Vec::new();
        assert(stages_of(stages@) =~= Seq::<Entries>::empty());
        push_document_stage(&mut stages, "$match", self.query);
        push_joins(&mut stages, &self.joins);
        push_matches(&mut stages, self.join_filters);
        assert(stages_of(stages@) =~= head_stages(plan));
        if self.is_group_by_query {
            push_aggregations(&mut stages, self.aggregations, self.aggregation_filters);
            let ghost grouped = stages_of(stages@);
            push_document_stage(&mut stages, "$sort", self.order);
            push_number_stage(&mut stages, "$skip", self.skip);
            push_number_stage(&mut stages, "$limit", self.limit);
            push_document_stage(&mut stages, "$project", self.projection);
            assert(stages_of(stages@) =~= grouped + window_stages(plan));
        } else {
            let ghost head = stages_of(stages@);
            push_document_stage(&mut stages, "$sort", self.order);
            push_number_stage(&mut stages, "$skip", self.skip);
            push_number_stage(&mut stages, "$limit", self.limit);
            push_document_stage(&mut stages, "$project", self.projection);
            assert(stages_of(stages@) =~= head + window_stages(plan));
            push_aggregations(&mut stages, self.aggregations, self.aggregation_filters);
        }
        stages
    }

    /// Renders the plan: as one find operation where it neither joins nor
    /// aggregates, as a pipeline otherwise.
    pub fn render_stage_sequence(self) -> (res: RenderedQuery)
        ensures
            res@ == rendered(self@),
    {
        if self.joins.len() == 0 && self.aggregations.len() == 0 {
            RenderedQuery::Find(self.find_query())
        } else {
            RenderedQuery::Pipeline(self.pipeline_stages())
        }
    }
}

impl MongoQueryArgs {
    /// Starts a plan from what the query asks for.
    ///
    /// Fails where the filter could not be rendered, with the error of the
    /// filter compiler. Where it could, the magnitude of the window has to fit,
    /// unless the window is ignored.
    pub fn new(args: QueryArguments) -> (res: Result<MongoQueryArgs, PlanBuildError>)
        requires
            !(args.filter matches Some(Err(_))) && !args.ignore_take ==> args.take != Some(i64::MIN),
        ensures
            match args.filter {
                Some(Err(error)) => res matches Err(PlanBuildError::Filter(e)) && e == error,
                _ => res matches Ok(plan) && plan@ == initial_plan(args),
            },
    {
        let reverse_order = match args.take {
            Some(t) => t < 0,
            None => false,
        };
        let ghost order_by = args.order_by@;
        let order_builder = OrderByBuilder::new(args.order_by, reverse_order);
        let mut post_filters: Vec<Document> = Vec::new();
        let mut joins: Vec<JoinStage> = Vec::new();

        let query = match args.filter {
            Some(Ok(filter)) => {
                // A filter that comes with joins has to run after them.
                if filter.joins.len() > 0 {
                    joins = filter.joins;
                    post_filters.push(filter.predicate);
                    None
                } else {
                    Some(filter.predicate)
                }
            },
            Some(Err(error)) => {
                return Err(PlanBuildError::Filter(error));
            },
            None => None,
        };

        let plan = MongoQueryArgs {
            query,
            join_filters: post_filters,
            joins,
            aggregations: Vec::new(),
            aggregation_filters: Vec::new(),
            order_builder,
            skip: skip(args.skip, args.ignore_skip),
            limit: take(args.take, args.ignore_take),
            projection: None,
            is_group_by_query: false,
        };
        assert(plan@ =~= initial_plan(args));
        Ok(plan)
    }

    /// Resolves the ordering against what the plan has become. The plan is
    /// consumed: what comes out can be rendered and nothing else.
    pub fn finalize(self) -> (res: FinalizedQueryArgs)
        ensures
            res@ == finalized(self@),
    {
        let ghost plan = self@;
        let (order, order_joins) = self.order_builder.build(self.is_group_by_query);
        let mut joins = self.joins;
        let mut order_joins = order_joins;
        joins.append(&mut order_joins);
        let res = FinalizedQueryArgs {
            query: self.query,
            joins,
            join_filters: self.join_filters,
            aggregations: self.aggregations,
            aggregation_filters: self.aggregation_filters,
            order,
            skip: self.skip,
            limit: self.limit,
            projection: self.projection,
            is_group_by_query: self.is_group_by_query,
        };
        assert(res@.joins =~= plan.joins);
        assert(res@ =~= finalized(plan));
        res
    }
}

/// One aggregation that a query asks for.
#[derive(Debug)]
pub enum AggregationSelection {
    /// A field that is selected as it is.
    Field(ScalarField),
    /// A count: of all rows where `all` is set, and of each of `fields`.
    Count { all: bool, fields: Vec<ScalarField> },
    Average(Vec<ScalarField>),
    Sum(Vec<ScalarField>),
    Min(Vec<ScalarField>),
    Max(Vec<ScalarField>),
}

/// An aggregation request as a mathematical value.
pub enum SelectionModel {
    Field(FieldModel),
    Count { all: bool, fields: Seq<FieldModel> },
    Average(Seq<FieldModel>),
    Sum(Seq<FieldModel>),
    Min(Seq<FieldModel>),
    Max(Seq<FieldModel>),
}

impl View for AggregationSelection {
    type V = SelectionModel;

    open spec fn view(&self) -> SelectionModel {
        match self {
            AggregationSelection::Field(field) => SelectionModel::Field(field@),
            AggregationSelection::Count { all, fields } => SelectionModel::Count {
                all: *all,
                fields: fields_of(fields@),
            },
            AggregationSelection::Average(fields) => SelectionModel::Average(fields_of(fields@)),
            AggregationSelection::Sum(fields) => SelectionModel::Sum(fields_of(fields@)),
            AggregationSelection::Min(fields) => SelectionModel::Min(fields_of(fields@)),
            AggregationSelection::Max(fields) => SelectionModel::Max(fields_of(fields@)),
        }
    }
}

/// The aggregation requests of a list, one for one.
pub open spec fn selections_of(selections: Seq<AggregationSelection>) -> Seq<SelectionModel> {
    selections.map_values(|s: AggregationSelection| s@)
}

/// The key that documents are grouped by: null, which makes one group of all
/// documents, where no field is given; else each field under its own name.
pub open spec fn group_key(by_fields: Seq<FieldModel>) -> Value {
    if by_fields.len() == 0 {
        Value::Null
    } else {
        Value::Document(put_all(Seq::empty(), group_key_pairs(by_fields)))
    }
}

/// The entries of a group key, one per field.
pub open spec fn group_key_pairs(by_fields: Seq<FieldModel>) -> Entries {
    Seq::new(by_fields.len(), |i: int| (by_fields[i].name, Value::Text(field_ref(by_fields[i].name))))
}

/// The name of the accumulator of an operation over a field: the word for the
/// operation, an underscore, and the field.
pub open spec fn accumulator_name(operation: Seq<char>, field: Seq<char>) -> Seq<char> {
    operation + "_"@ + field
}

/// The accumulator that applies an operator of the store to a field.
pub open spec fn accumulator(operator: Seq<char>, field: Seq<char>) -> Value {
    Value::Document(seq![("$"@ + operator, Value::Text(field_ref(field)))])
}

/// The accumulators of one operation over each of the fields: each is named
/// after the operation and applies the store's operator for it.
pub open spec fn accumulator_pairs(
    operation: Seq<char>,
    operator: Seq<char>,
    fields: Seq<FieldModel>,
) -> Entries {
    Seq::new(
        fields.len(),
        |i: int| (accumulator_name(operation, fields[i].name), accumulator(operator, fields[i].name)),
    )
}

/// The accumulator that counts all rows.
pub open spec fn count_all() -> (Seq<char>, Value) {
    ("count_all"@, Value::Document(seq![("$sum"@, Value::Int32(1))]))
}

/// The accumulators of one request. A selected field has none; a count has
/// the count of all rows only where that was asked for, then one per field.
/// An average is named `average_` and its field; the store's operator for it
/// is `$avg`.
pub open spec fn selection_pairs(selection: SelectionModel) -> Entries {
    match selection {
        SelectionModel::Field(_) => Seq::empty(),
        SelectionModel::Count { all, fields } => if all {
            seq![count_all()] + accumulator_pairs("count"@, "count"@, fields)
        } else {
            accumulator_pairs("count"@, "count"@, fields)
        },
        SelectionModel::Average(fields) => accumulator_pairs("average"@, "avg"@, fields),
        SelectionModel::Sum(fields) => accumulator_pairs("sum"@, "sum"@, fields),
        SelectionModel::Min(fields) => accumulator_pairs("min"@, "min"@, fields),
        SelectionModel::Max(fields) => accumulator_pairs("max"@, "max"@, fields),
    }
}

/// The accumulators of all requests, in request order.
pub open spec fn all_selection_pairs(selections: Seq<SelectionModel>) -> Entries
    decreases selections.len(),
{
    if selections.len() == 0 {
        Seq::empty()
    } else {
        all_selection_pairs(selections.drop_last()) + selection_pairs(selections.last())
    }
}

/// What stands under `$group`: the group key, then the accumulators, each set
/// in request order.
pub open spec fn group_entries(by_fields: Seq<FieldModel>, selections: Seq<SelectionModel>) -> Entries {
    put_all(seq![("_id"@, group_key(by_fields))], all_selection_pairs(selections))
}

/// The one stage that groups by the given fields and holds all accumulators.
pub open spec fn group_stage(by_fields: Seq<FieldModel>, selections: Seq<SelectionModel>) -> Entries {
    seq![("$group"@, Value::Document(group_entries(by_fields, selections)))]
}

/// The plan after grouping is added: one more aggregation stage, and group
/// mode.
pub open spec fn with_grouping(
    plan: QueryPlan,
    by_fields: Seq<FieldModel>,
    selections: Seq<SelectionModel>,
) -> QueryPlan {
    QueryPlan {
        aggregations: plan.aggregations.push(group_stage(by_fields, selections)),
        group_mode: true,
        ..plan
    }
}

fn aggregation_pairs(operation: &str, op: &str, fields: &[ScalarField]) -> (pairs: Vec<(String, Bson)>)
    ensures
        pairs_of(pairs@) == accumulator_pairs(operation@, op@, fields_of(fields@)),
{
    let ghost wanted = accumulator_pairs(operation@, op@, fields_of(fields@));
    let mut pairs: Vec<(String, Bson)> = Vec::new();
    let mut i: usize = 0;
    assert(pairs_of(pairs@) =~= wanted.take(0));
    while i < fields.len()
        invariant
            i <= fields@.len(),
            wanted == accumulator_pairs(operation@, op@, fields_of(fields@)),
            pairs_of(pairs@) == wanted.take(i as int),
        decreases fields@.len() - i,
    {
        let field = &fields[i];
        let mut name = joined(operation, "_");
        name.append(field.db_name.as_str());
        let operator = joined("$", op);
        let value = bson_document(
            single_entry(operator.as_str(), bson_string(joined("$", field.db_name.as_str()))),
        );
        proof {
            assert(fields_of(fields@)[i as int] == field@);
            assert(pairs_of(pairs@.push((name, value))) =~= pairs_of(pairs@).push(
                (name@, bson_value(value)),
            ));
            assert(wanted.take(i + 1) =~= wanted.take(i as int).push(wanted[i as int]));
        }
        pairs.push((name, value));
        i += 1;
    }
    assert(wanted.take(i as int) =~= wanted);
    pairs
}

fn group_key_value(by_fields: &Vec<ScalarField>) -> (key: Bson)
    ensures
        bson_value(key) == group_key(fields_of(by_fields@)),
{
    if by_fields.len() == 0 {
        // Null groups over the entire collection.
        return bson_null();
    }
    let ghost pairs = group_key_pairs(fields_of(by_fields@));
    let mut group_doc = Document::new();
    let mut i: usize = 0;
    assert(pairs.take(0) =~= Seq::<(Seq<char>, Value)>::empty());
    while i < by_fields.len()
        invariant
            i <= by_fields@.len(),
            pairs == group_key_pairs(fields_of(by_fields@)),
            doc_entries(group_doc) == put_all(Seq::empty(), pairs.take(i as int)),
        decreases by_fields@.len() - i,
    {
        let field = &by_fields[i];
        let value = bson_string(joined("$", field.db_name.as_str()));
        proof {
            assert(fields_of(by_fields@)[i as int] == field@);
            assert(pairs.take(i + 1).drop_last() =~= pairs.take(i as int));
            assert(pairs.take(i + 1).last() == (field.db_name@, bson_value(value)));
        }
        doc_insert(&mut group_doc, field.db_name.clone(), value);
        i += 1;
    }
    assert(pairs.take(i as int) =~= pairs);
    bson_document(group_doc)
}

fn add_selection(grouping_stage: &mut Document, selection: &AggregationSelection)
    ensures
        doc_entries(*final(grouping_stage)) == put_all(
            doc_entries(*old(grouping_stage)),
            selection_pairs(selection@),
        ),
{
    let ghost before = doc_entries(*grouping_stage);
    match selection {
        AggregationSelection::Field(_) => {},
        AggregationSelection::Count { all, fields } => {
            if *all {
                let one = bson_document(single_entry("$sum", bson_int32(1)));
                doc_insert(grouping_stage, String::from_str("count_all"), one);
                proof {
                    lemma_put_all_one(before, count_all().0, count_all().1);
                    lemma_put_all_concat(
                        before,
                        seq![count_all()],
                        accumulator_pairs("count"@, "count"@, fields_of(fields@)),
                    );
                }
            }
            let pairs = aggregation_pairs("count", "count", fields.as_slice());
            doc_extend(grouping_stage, pairs);
        },
        AggregationSelection::Average(fields) => {
            let pairs = aggregation_pairs("average", "avg", fields.as_slice());
            doc_extend(grouping_stage, pairs);
        },
        AggregationSelection::Sum(fields) => {
            let pairs = aggregation_pairs("sum", "sum", fields.as_slice());
            doc_extend(grouping_stage, pairs);
        },
        AggregationSelection::Min(fields) => {
            let pairs = aggregation_pairs("min", "min", fields.as_slice());
            doc_extend(grouping_stage, pairs);
        },
        AggregationSelection::Max(fields) => {
            let pairs = aggregation_pairs("max", "max", fields.as_slice());
            doc_extend(grouping_stage, pairs);
        },
    }
}

impl MongoQueryArgs {
    /// Adds the fields to group by, with their aggregations, to the plan.
    ///
    /// All accumulators go into one stage. The plan groups from here on,
    /// whether or not there is a field to group by: without one, all documents
    /// make one group.
    pub fn with_groupings(self, by_fields: Vec<ScalarField>, aggregations: &[AggregationSelection]) -> (res:
        Self)
        ensures
            res@ == with_grouping(self@, fields_of(by_fields@), selections_of(aggregations@)),
    {
        let ghost plan = self@;
        let ghost selections = selections_of(aggregations@);
        let mut this = self;
        this.is_group_by_query = true;
        let grouping = group_key_value(&by_fields);
        let mut grouping_stage = single_entry("_id", grouping);
        let ghost start = doc_entries(grouping_stage);

        let mut i: usize = 0;
        assert(selections.take(0) =~= Seq::<SelectionModel>::empty());
        while i < aggregations.len()
            invariant
                i <= aggregations@.len(),
                selections == selections_of(aggregations@),
                doc_entries(grouping_stage) == put_all(start, all_selection_pairs(selections.take(i as int))),
            decreases aggregations@.len() - i,
        {
            proof {
                assert(selections.take(i + 1).drop_last() =~= selections.take(i as int));
                assert(selections.take(i + 1).last() == aggregations@[i as int]@);
                lemma_put_all_concat(
                    start,
                    all_selection_pairs(selections.take(i as int)),
                    selection_pairs(aggregations@[i as int]@),
                );
            }
            add_selection(&mut grouping_stage, &aggregations[i]);
            i += 1;
        }
        assert(selections.take(i as int) =~= selections);

        let stage = single_entry("$group", bson_document(grouping_stage));
        proof {
            lemma_stages_push(this.aggregations@, stage);
        }
        this.aggregations.push(stage);
        assert(this@ =~= with_grouping(plan, fields_of(by_fields@), selections));
        this
    }

    /// Adds a filter over the aggregated documents.
    ///
    /// Without a filter the plan stays as it is. A filter that could not be
    /// rendered fails the plan with the error of the filter compiler. The joins
    /// of a rendered filter are left aside: nothing can be joined to what an
    /// aggregation produced.
    pub fn with_having(self, having: Option<Result<RenderedFilter, ConversionError>>) -> (res: Result<
        Self,
        PlanBuildError,
    >)
        ensures
            match having {
                None => res matches Ok(plan) && plan@ == self@,
                Some(Ok(filter)) => res matches Ok(plan) && plan@ == (QueryPlan {
                    aggregation_filters: self@.aggregation_filters.push(doc_entries(filter.predicate)),
                    ..self@
                }),
                Some(Err(error)) => res matches Err(PlanBuildError::Filter(e)) && e == error,
            },
    {
        let ghost plan = self@;
        let mut this = self;
        match having {
            Some(Ok(filter)) => {
                proof {
                    lemma_stages_push(this.aggregation_filters@, filter.predicate);
                }
                this.aggregation_filters.push(filter.predicate);
                assert(this@ =~= (QueryPlan {
                    aggregation_filters: plan.aggregation_filters.push(doc_entries(filter.predicate)),
                    ..plan
                }));
            },
            Some(Err(error)) => {
                return Err(PlanBuildError::Filter(error));
            },
            None => {},
        }
        Ok(this)
    }
}

/// One field of a projection: the name it is stored under, and whether it is
/// to be returned or left out.
#[derive(Debug)]
pub struct ProjectedField {
    pub db_name: String,
    pub included: bool,
}

/// A projected field as a mathematical value.
pub struct ProjectedModel {
    pub name: Seq<char>,
    pub included: bool,
}

impl View for ProjectedField {
    type V = ProjectedModel;

    open spec fn view(&self) -> ProjectedModel {
        ProjectedModel { name: self.db_name@, included: self.included }
    }
}

/// The fields that a query selects.
#[derive(Debug)]
pub struct ModelProjection {
    pub fields: Vec<ProjectedField>,
}

impl View for ModelProjection {
    type V = Seq<ProjectedModel>;

    open spec fn view(&self) -> Seq<ProjectedModel> {
        self.fields@.map_values(|f: ProjectedField| f@)
    }
}

/// Whether another selection names the field at `i` and says the opposite of
/// it.
pub open spec fn contradicted(fields: Seq<ProjectedModel>, i: int) -> bool {
    exists|j: int|
        0 <= j < fields.len() && (#[trigger] fields[j]).name == fields[i].name && fields[j].included
            != fields[i].included
}

/// Whether the selection at `i` is the first of its field.
pub open spec fn first_of_name(fields: Seq<ProjectedModel>, i: int) -> bool {
    forall|k: int| 0 <= k < i ==> (#[trigger] fields[k]).name != fields[i].name
}

/// The fields among the first `n` selections that are selected both in and
/// out, each once, in the order in which they first occur.
pub open spec fn conflicts_upto(fields: Seq<ProjectedModel>, n: int) -> Seq<Seq<char>>
    decreases n,
{
    if n <= 0 {
        Seq::empty()
    } else {
        let rest = conflicts_upto(fields, n - 1);
        if first_of_name(fields, n - 1) && contradicted(fields, n - 1) {
            rest.push(fields[n - 1].name)
        } else {
            rest
        }
    }
}

/// The fields that a projection selects both in and out.
pub open spec fn conflicting_fields(fields: Seq<ProjectedModel>) -> Seq<Seq<char>> {
    conflicts_upto(fields, fields.len() as int)
}

/// The entries of a projection document, one per selection: 1 for a field to
/// return, 0 for one to leave out.
pub open spec fn projection_pairs(fields: Seq<ProjectedModel>) -> Entries {
    Seq::new(
        fields.len(),
        |i: int|
            (
                fields[i].name,
                Value::Int32(
                    if fields[i].included {
                        1i32
                    } else {
                        0i32
                    },
                ),
            ),
    )
}

/// The projection document of a selection.
pub open spec fn projection_document(fields: Seq<ProjectedModel>) -> Entries {
    put_all(Seq::empty(), projection_pairs(fields))
}

/// A selection up to `n` that has no conflicting field contradicts itself
/// nowhere up to `n`.
proof fn lemma_no_conflicts_upto(fields: Seq<ProjectedModel>, n: int, i: int)
    requires
        0 <= i < n <= fields.len(),
        conflicts_upto(fields, n).len() == 0,
    ensures
        !contradicted(fields, i),
    decreases n,
{
    let rest = conflicts_upto(fields, n - 1);
    if first_of_name(fields, n - 1) && contradicted(fields, n - 1) {
        assert(rest.push(fields[n - 1].name).len() > 0);
    }
    if i < n - 1 {
        lemma_no_conflicts_upto(fields, n - 1, i);
    } else if contradicted(fields, i) {
        // The selection at `i` is not the first of its field; the first one is
        // contradicted too, by `i` or by what contradicts `i`.
        let k = choose|k: int| 0 <= k < i && (#[trigger] fields[k]).name == fields[i].name;
        let j = choose|j: int|
            0 <= j < fields.len() && (#[trigger] fields[j]).name == fields[i].name && fields[j].included
                != fields[i].included;
        if fields[k].included != fields[i].included {
            assert(fields[i].name == fields[k].name);
        } else {
            assert(fields[j].name == fields[k].name && fields[j].included != fields[k].included);
        }
        assert(contradicted(fields, k));
        lemma_no_conflicts_upto(fields, n - 1, k);
    }
}

/// A projection has no conflicting field exactly when no selection of it is
/// contradicted by another.
pub proof fn lemma_conflict_free(fields: Seq<ProjectedModel>)
    ensures
        conflicting_fields(fields).len() == 0 <==> forall|i: int|
            0 <= i < fields.len() ==> !contradicted(fields, i),
{
    if conflicting_fields(fields).len() == 0 {
        assert forall|i: int| 0 <= i < fields.len() implies !contradicted(fields, i) by {
            lemma_no_conflicts_upto(fields, fields.len() as int, i);
        }
    }
    if forall|i: int| 0 <= i < fields.len() ==> !contradicted(fields, i) {
        lemma_conflicts_need_contradiction(fields, fields.len() as int);
    }
}

proof fn lemma_conflicts_need_contradiction(fields: Seq<ProjectedModel>, n: int)
    requires
        0 <= n <= fields.len(),
        forall|i: int| 0 <= i < fields.len() ==> !contradicted(fields, i),
    ensures
        conflicts_upto(fields, n).len() == 0,
    decreases n,
{
    if n > 0 {
        lemma_conflicts_need_contradiction(fields, n - 1);
    }
}

fn is_first_of_name(fields: &Vec<ProjectedField>, i: usize) -> (res: bool)
    requires
        i < fields@.len(),
    ensures
        res == first_of_name(fields@.map_values(|f: ProjectedField| f@), i as int),
{
    let ghost models = fields@.map_values(|f: ProjectedField| f@);
    let mut k: usize = 0;
    while k < i
        invariant
            k <= i < fields@.len(),
            models == fields@.map_values(|f: ProjectedField| f@),
            forall|m: int| 0 <= m < k ==> (#[trigger] models[m]).name != models[i as int].name,
        decreases i - k,
    {
        if fields[k].db_name == fields[i].db_name {
            assert(models[k as int].name == models[i as int].name);
            return false;
        }
        k += 1;
    }
    true
}

fn is_contradicted(fields: &Vec<ProjectedField>, i: usize) -> (res: bool)
    requires
        i < fields@.len(),
    ensures
        res == contradicted(fields@.map_values(|f: ProjectedField| f@), i as int),
{
    let ghost models = fields@.map_values(|f: ProjectedField| f@);
    let mut j: usize = 0;
    while j < fields.len()
        invariant
            j <= fields@.len(),
            i < fields@.len(),
            models == fields@.map_values(|f: ProjectedField| f@),
            forall|m: int|
                0 <= m < j ==> !((#[trigger] models[m]).name == models[i as int].name && models[m].included
                    != models[i as int].included),
        decreases fields@.len() - j,
    {
        if fields[j].db_name == fields[i].db_name && fields[j].included != fields[i].included {
            assert(models[j as int].name == models[i as int].name && models[j as int].included
                != models[i as int].included);
            return true;
        }
        j += 1;
    }
    false
}

fn projection_conflicts(fields: &Vec<ProjectedField>) -> (names: Vec<String>)
    ensures
        strings_of(names@) == conflicting_fields(fields@.map_values(|f: ProjectedField| f@)),
{
    let ghost models = fields@.map_values(|f: ProjectedField| f@);
    let mut names: Vec<String> = Vec::new();
    let mut i: usize = 0;
    assert(strings_of(names@) =~= conflicts_upto(models, 0));
    while i < fields.len()
        invariant
            i <= fields@.len(),
            models == fields@.map_values(|f: ProjectedField| f@),
            strings_of(names@) == conflicts_upto(models, i as int),
        decreases fields@.len() - i,
    {
        if is_first_of_name(fields, i) && is_contradicted(fields, i) {
            let name = fields[i].db_name.clone();
            assert(strings_of(names@.push(name)) =~= strings_of(names@).push(name@));
            names.push(name);
        }
        i += 1;
    }
    names
}

fn projection_doc(fields: &Vec<ProjectedField>) -> (doc: Document)
    ensures
        doc_entries(doc) == projection_document(fields@.map_values(|f: ProjectedField| f@)),
{
    let ghost pairs = projection_pairs(fields@.map_values(|f: ProjectedField| f@));
    let mut doc = Document::new();
    let mut i: usize = 0;
    assert(pairs.take(0) =~= Seq::<(Seq<char>, Value)>::empty());
    while i < fields.len()
        invariant
            i <= fields@.len(),
            pairs == projection_pairs(fields@.map_values(|f: ProjectedField| f@)),
            doc_entries(doc) == put_all(Seq::empty(), pairs.take(i as int)),
        decreases fields@.len() - i,
    {
        let field = &fields[i];
        let number: i32 = if field.included {
            1
        } else {
            0
        };
        let value = bson_int32(number);
        proof {
            assert(pairs.take(i + 1).drop_last() =~= pairs.take(i as int));
            assert(pairs.take(i + 1).last() == (field.db_name@, bson_value(value)));
        }
        doc_insert(&mut doc, field.db_name.clone(), value);
        i += 1;
    }
    assert(pairs.take(i as int) =~= pairs);
    doc
}

impl MongoQueryArgs {
    /// Sets the projection of the plan to the selected fields, in place of any
    /// projection it had.
    ///
    /// Fails, and names the fields, where the selection asks for a field both
    /// in and out.
    pub fn with_model_projection(self, selected_fields: ModelProjection) -> (res: Result<
        Self,
        PlanBuildError,
    >)
        ensures
            conflicting_fields(selected_fields@).len() == 0 ==> (res matches Ok(plan) && plan@ == (QueryPlan {
                projection: Some(projection_document(selected_fields@)),
                ..self@
            })),
            conflicting_fields(selected_fields@).len() > 0 ==> (res matches Err(
                PlanBuildError::ConflictingProjection(names),
            ) && strings_of(names@) == conflicting_fields(selected_fields@)),
    {
        let ghost plan = self@;
        let conflicts = projection_conflicts(&selected_fields.fields);
        if conflicts.len() > 0 {
            return Err(PlanBuildError::ConflictingProjection(conflicts));
        }
        let projection = projection_doc(&selected_fields.fields);
        let mut this = self;
        this.projection = Some(projection);
        assert(this@ =~= (QueryPlan {
            projection: Some(projection_document(selected_fields@)),
            ..plan
        }));
        Ok(this)
    }
}

/// A plan that neither joins nor aggregates renders as one find operation and
/// no pipeline stage: the operation holds the plan's base predicate, its sort
/// document, its skip, its limit and its projection.
pub proof fn lemma_minimal_plan_renders_as_find(plan: QueryPlan)
    requires
        plan.joins.len() == 0,
        plan.aggregations.len() == 0,
    ensures
        rendered(finalized(plan)) == RenderedModel::Find(
            FindModel {
                filter: plan.query,
                projection: plan.projection,
                sort: sort_document(plan.order, plan.group_mode),
                skip: plan.skip,
                limit: plan.limit,
            },
        ),
{
}

/// A plan that joins or aggregates renders as its pipeline.
pub proof fn lemma_other_plans_render_as_pipeline(plan: QueryPlan)
    requires
        plan.joins.len() > 0 || plan.aggregations.len() > 0,
    ensures
        rendered(finalized(plan)) == RenderedModel::Pipeline(pipeline(finalized(plan))),
{
}

/// Where a plan does not group, every aggregating stage comes after every
/// stage that sorts, skips, limits or projects; where it groups, before. The
/// stages of the head come first either way.
pub proof fn lemma_aggregation_position(plan: FinalizedPlan)
    ensures
        pipeline(plan).len() == head_stages(plan).len() + window_stages(plan).len() + aggregation_stages(
            plan,
        ).len(),
        forall|h: int|
            0 <= h < head_stages(plan).len() ==> #[trigger] pipeline(plan)[h] == head_stages(plan)[h],
        !plan.group_mode ==> forall|w: int, a: int|
            #![trigger window_stages(plan)[w], aggregation_stages(plan)[a]]
            0 <= w < window_stages(plan).len() && 0 <= a < aggregation_stages(plan).len() ==> {
                let at_w = head_stages(plan).len() + w;
                let at_a = head_stages(plan).len() + window_stages(plan).len() + a;
                &&& at_w < at_a
                &&& pipeline(plan)[at_w] == window_stages(plan)[w]
                &&& pipeline(plan)[at_a] == aggregation_stages(plan)[a]
            },
        plan.group_mode ==> forall|w: int, a: int|
            #![trigger window_stages(plan)[w], aggregation_stages(plan)[a]]
            0 <= w < window_stages(plan).len() && 0 <= a < aggregation_stages(plan).len() ==> {
                let at_a = head_stages(plan).len() + a;
                let at_w = head_stages(plan).len() + aggregation_stages(plan).len() + w;
                &&& at_a < at_w
                &&& pipeline(plan)[at_w] == window_stages(plan)[w]
                &&& pipeline(plan)[at_a] == aggregation_stages(plan)[a]
            },
{
}

/// The stages that a find operation amounts to: match, sort, skip, limit,
/// projection, each only where the operation has it.
pub open spec fn find_as_stages(find: FindModel) -> Seq<Entries> {
    optional_stage("$match"@, document_value(find.filter)) + optional_stage(
        "$sort"@,
        document_value(find.sort),
    ) + optional_stage("$skip"@, number_value(find.skip)) + optional_stage(
        "$limit"@,
        number_value(find.limit),
    ) + optional_stage("$project"@, document_value(find.projection))
}

/// For a plan without joins, aggregations and deferred or aggregate filters,
/// the find operation and the pipeline ask for the same: the pipeline is the
/// find operation written as stages.
pub proof fn lemma_find_agrees_with_pipeline(plan: FinalizedPlan)
    requires
        plan.joins.len() == 0,
        plan.aggregations.len() == 0,
        plan.join_filters.len() == 0,
        plan.aggregation_filters.len() == 0,
    ensures
        pipeline(plan) == find_as_stages(find_query(plan)),
{
    assert(join_stages(plan.joins) =~= Seq::<Entries>::empty());
    assert(match_stages(plan.join_filters) =~= Seq::<Entries>::empty());
    assert(aggregation_stages(plan) =~= Seq::<Entries>::empty());
    assert(pipeline(plan) =~= find_as_stages(find_query(plan)));
}

/// The stages of a pipeline as values.
pub open spec fn stage_values(stages: Seq<Entries>) -> Seq<Value> {
    Seq::new(stages.len(), |i: int| Value::Document(stages[i]))
}

/// The joins of a plan render to one lookup per node of their trees, and the
/// lookups come tree after tree, each tree depth first, pre-order.
pub proof fn lemma_join_stages_in_preorder(joins: Seq<JoinNode>)
    ensures
        pipeline_lookups(stage_values(join_stages(joins))) == preorder_names_all(joins),
{
    lemma_join_stages_are_nested_stages(joins);
    lemma_nested_lookups_in_preorder(joins);
}

proof fn lemma_join_stages_are_nested_stages(joins: Seq<JoinNode>)
    ensures
        stage_values(join_stages(joins)) == nested_stages(joins),
    decreases joins.len(),
{
    if joins.len() == 0 {
        assert(stage_values(join_stages(joins)) =~= nested_stages(joins));
    } else {
        lemma_join_stages_are_nested_stages(joins.drop_last());
        assert(stage_values(join_stages(joins)) =~= stage_values(join_stages(joins.drop_last())).push(
            Value::Document(lookup_stage(joins.last())),
        ));
    }
}

/// Setting a key other than the first leaves the first entry alone.
proof fn lemma_put_keeps_first(entries: Entries, key: Seq<char>, value: Value)
    requires
        entries.len() > 0,
        entries[0].0 != key,
    ensures
        put(entries, key, value).len() >= entries.len(),
        put(entries, key, value)[0] == entries[0],
{
    lemma_put_len(entries.drop_first(), key, value);
}

proof fn lemma_put_len(entries: Entries, key: Seq<char>, value: Value)
    ensures
        put(entries, key, value).len() >= entries.len(),
        put(entries, key, value).len() >= 1,
    decreases entries.len(),
{
    if entries.len() > 0 && entries[0].0 != key {
        lemma_put_len(entries.drop_first(), key, value);
    }
}

proof fn lemma_put_all_keeps_first(entries: Entries, pairs: Entries)
    requires
        entries.len() > 0,
        !has_key(pairs, entries[0].0),
    ensures
        put_all(entries, pairs).len() > 0,
        put_all(entries, pairs)[0] == entries[0],
    decreases pairs.len(),
{
    if pairs.len() > 0 {
        let rest = pairs.drop_last();
        assert(!has_key(rest, entries[0].0)) by {
            if has_key(rest, entries[0].0) {
                let i = choose|i: int| 0 <= i < rest.len() && (#[trigger] rest[i]).0 == entries[0].0;
                assert(pairs[i].0 == entries[0].0);
            }
        }
        lemma_put_all_keeps_first(entries, rest);
        assert(pairs[pairs.len() - 1].0 != entries[0].0);
        lemma_put_keeps_first(put_all(entries, rest), pairs.last().0, pairs.last().1);
    }
}

proof fn lemma_accumulators_spare_the_key(
    operation: Seq<char>,
    operator: Seq<char>,
    fields: Seq<FieldModel>,
)
    requires
        operation.len() > 0,
        operation[0] != '_',
    ensures
        !has_key(accumulator_pairs(operation, operator, fields), "_id"@),
{
    reveal_strlit("_id");
    let pairs = accumulator_pairs(operation, operator, fields);
    assert forall|i: int| 0 <= i < pairs.len() implies (#[trigger] pairs[i]).0 != "_id"@ by {
        assert(pairs[i].0 == accumulator_name(operation, fields[i].name));
        assert(pairs[i].0[0] == operation[0]);
    }
}

proof fn lemma_selection_spares_the_key(selection: SelectionModel)
    ensures
        !has_key(selection_pairs(selection), "_id"@),
{
    reveal_strlit("_id");
    reveal_strlit("count_all");
    reveal_strlit("count");
    reveal_strlit("average");
    reveal_strlit("sum");
    reveal_strlit("min");
    reveal_strlit("max");
    match selection {
        SelectionModel::Field(_) => {},
        SelectionModel::Count { all, fields } => {
            lemma_accumulators_spare_the_key("count"@, "count"@, fields);
            let counts = accumulator_pairs("count"@, "count"@, fields);
            let pairs = selection_pairs(selection);
            assert forall|i: int| 0 <= i < pairs.len() implies (#[trigger] pairs[i]).0 != "_id"@ by {
                if all {
                    if i == 0 {
                        assert(pairs[0].0 == "count_all"@);
                    } else {
                        assert(pairs[i] == counts[i - 1]);
                    }
                }
            }
        },
        SelectionModel::Average(fields) => {
            lemma_accumulators_spare_the_key("average"@, "avg"@, fields);
        },
        SelectionModel::Sum(fields) => {
            lemma_accumulators_spare_the_key("sum"@, "sum"@, fields);
        },
        SelectionModel::Min(fields) => {
            lemma_accumulators_spare_the_key("min"@, "min"@, fields);
        },
        SelectionModel::Max(fields) => {
            lemma_accumulators_spare_the_key("max"@, "max"@, fields);
        },
    }
}

proof fn lemma_selections_spare_the_key(selections: Seq<SelectionModel>)
    ensures
        !has_key(all_selection_pairs(selections), "_id"@),
    decreases selections.len(),
{
    if selections.len() > 0 {
        lemma_selections_spare_the_key(selections.drop_last());
        lemma_selection_spares_the_key(selections.last());
        let before = all_selection_pairs(selections.drop_last());
        let last = selection_pairs(selections.last());
        let pairs = all_selection_pairs(selections);
        assert forall|i: int| 0 <= i < pairs.len() implies (#[trigger] pairs[i]).0 != "_id"@ by {
            if i < before.len() {
                assert(pairs[i] == before[i]);
            } else {
                assert(pairs[i] == last[i - before.len()]);
            }
        }
    }
}

/// No accumulator takes the place of the group key: a grouping stage starts
/// with the key that was asked for, whatever is aggregated.
pub proof fn lemma_group_key_comes_first(by_fields: Seq<FieldModel>, selections: Seq<SelectionModel>)
    ensures
        group_entries(by_fields, selections).len() > 0,
        group_entries(by_fields, selections)[0] == ("_id"@, group_key(by_fields)),
        by_fields.len() == 0 ==> group_key(by_fields) == Value::Null,
{
    lemma_selections_spare_the_key(selections);
    lemma_put_all_keeps_first(seq![("_id"@, group_key(by_fields))], all_selection_pairs(selections));
}

} // verus!
