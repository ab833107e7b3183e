//! Joins: relations followed from one collection into another, each rendered as
//! a correlated lookup stage.
//!
//! A [`JoinStage`] is a node of a join tree. Rendering a node gives one
//! `$lookup` stage whose sub-pipeline correlates the joined collection with the
//! source document and then holds the stages of the nested joins.

use crate::document::{
    bson_array, bson_document, bson_string, bson_text, bson_value, doc_entries, doc_insert,
    has_key, lemma_put_fresh, lemma_values_push, put, put_all, single_entry, values_of, Entries,
    Value,
};
use crate::text::{decimal, decimal_string, joined, lemma_decimal_is_injective};
use mongodb::bson::{Bson, Document};
use vstd::prelude::*;

verus! {

/// A scalar field of a collection: the name it is stored under, and whether it
/// holds an array.
#[derive(Debug)]
pub struct ScalarField {
    pub db_name: String,
    pub is_list: bool,
}

impl Clone for ScalarField {
    fn clone(&self) -> (res: Self)
        ensures
            res == *self,
    {
        ScalarField { db_name: self.db_name.clone(), is_list: self.is_list }
    }
}

/// A copy of a list of fields.
pub fn clone_fields(fields: &Vec<ScalarField>) -> (res: Vec<ScalarField>)
    ensures
        res@ == fields@,
{
    let mut res: Vec<ScalarField> = Vec::new();
    let mut i: usize = 0;
    while i < fields.len()
        invariant
            i <= fields@.len(),
            res@ == fields@.take(i as int),
        decreases fields@.len() - i,
    {
        res.push(fields[i].clone());
        assert(fields@.take(i + 1) =~= fields@.take(i as int).push(fields@[i as int]));
        i += 1;
    }
    assert(fields@.take(fields@.len() as int) =~= fields@);
    res
}

/// A scalar field as a mathematical value.
pub struct FieldModel {
    pub name: Seq<char>,
    pub is_list: bool,
}

impl View for ScalarField {
    type V = FieldModel;

    open spec fn view(&self) -> FieldModel {
        FieldModel { name: self.db_name@, is_list: self.is_list }
    }
}

/// The fields of a list, one for one.
pub open spec fn fields_of(fields: Seq<ScalarField>) -> Seq<FieldModel> {
    fields.map_values(|f: ScalarField| f@)
}

/// Whether some field of the list holds an array.
pub open spec fn any_list(fields: Seq<FieldModel>) -> bool {
    exists|i: int| 0 <= i < fields.len() && (#[trigger] fields[i]).is_list
}

/// How many documents of the target side one source document relates to.
#[derive(Clone, Copy, Debug, PartialEq, Eq, Structural)]
pub enum Multiplicity {
    /// The keys of the two sides are compared for equality.
    Single,
    /// One side of each key pair holds an array of the other side's values.
    ManyToMany,
}

/// A relation edge as a mathematical value.
pub struct EdgeModel {
    pub name: Seq<char>,
    pub multiplicity: Multiplicity,
    pub collection: Seq<char>,
    pub left: Seq<FieldModel>,
    pub right: Seq<FieldModel>,
}

impl EdgeModel {
    /// The key lists pair up, and in a many-to-many edge exactly one side of
    /// each pair holds an array.
    pub open spec fn wf(self) -> bool {
        &&& self.left.len() == self.right.len()
        &&& self.multiplicity == Multiplicity::ManyToMany ==> forall|i: int|
            0 <= i < self.left.len() ==> (#[trigger] self.left[i]).is_list != self.right[i].is_list
    }
}

/// Why a relation edge cannot be made.
#[derive(Clone, Copy, Debug, PartialEq, Eq, Structural)]
pub enum EdgeError {
    /// The two key lists differ in length.
    KeyLengthMismatch,
    /// A key pair of a many-to-many edge has no array-valued side, or two.
    ArraySideMismatch,
}

/// A relation seen from its source side: the key fields of both sides, paired
/// by position, the collection it leads to, and its name.
#[derive(Debug)]
pub struct RelationEdge {
    name: String,
    multiplicity: Multiplicity,
    related_collection: String,
    left_scalars: Vec<ScalarField>,
    right_scalars: Vec<ScalarField>,
}

impl View for RelationEdge {
    type V = EdgeModel;

    closed spec fn view(&self) -> EdgeModel {
        EdgeModel {
            name: self.name@,
            multiplicity: self.multiplicity,
            collection: self.related_collection@,
            left: fields_of(self.left_scalars@),
            right: fields_of(self.right_scalars@),
        }
    }
}

/// The edge that the parts make.
pub open spec fn edge_model(
    name: Seq<char>,
    multiplicity: Multiplicity,
    collection: Seq<char>,
    left: Seq<FieldModel>,
    right: Seq<FieldModel>,
) -> EdgeModel {
    EdgeModel { name, multiplicity, collection, left, right }
}

impl Clone for RelationEdge {
    fn clone(&self) -> (res: Self)
        ensures
            res@ == self@,
    {
        proof {
            use_type_invariant(self);
        }
        RelationEdge {
            name: self.name.clone(),
            multiplicity: self.multiplicity,
            related_collection: self.related_collection.clone(),
            left_scalars: clone_fields(&self.left_scalars),
            right_scalars: clone_fields(&self.right_scalars),
        }
    }
}

impl RelationEdge {
    #[verifier::type_invariant]
    spec fn well_formed(self) -> bool {
        self@.wf()
    }

    /// Makes an edge from its parts, or says which rule they break.
    pub fn new(
        name: String,
        multiplicity: Multiplicity,
        related_collection: String,
        left_scalars: Vec<ScalarField>,
        right_scalars: Vec<ScalarField>,
    ) -> (res: Result<RelationEdge, EdgeError>)
        ensures
            res == Err::<RelationEdge, EdgeError>(EdgeError::KeyLengthMismatch) <==> left_scalars@.len()
                != right_scalars@.len(),
            res == Err::<RelationEdge, EdgeError>(EdgeError::ArraySideMismatch) <==> (left_scalars@.len()
                == right_scalars@.len() && !edge_model(
                name@,
                multiplicity,
                related_collection@,
                fields_of(left_scalars@),
                fields_of(right_scalars@),
            ).wf()),
            res matches Ok(edge) ==> edge@ == edge_model(
                name@,
                multiplicity,
                related_collection@,
                fields_of(left_scalars@),
                fields_of(right_scalars@),
            ),
    {
        if left_scalars.len() != right_scalars.len() {
            return Err(EdgeError::KeyLengthMismatch);
        }
        match multiplicity {
            Multiplicity::ManyToMany => {
                let mut i: usize = 0;
                while i < left_scalars.len()
                    invariant
                        i <= left_scalars@.len(),
                        left_scalars@.len() == right_scalars@.len(),
                        multiplicity == Multiplicity::ManyToMany,
                        forall|j: int|
                            0 <= j < i ==> (#[trigger] fields_of(left_scalars@)[j]).is_list != fields_of(
                                right_scalars@,
                            )[j].is_list,
                    decreases left_scalars@.len() - i,
                {
                    if left_scalars[i].is_list == right_scalars[i].is_list {
                        proof {
                            let l = fields_of(left_scalars@);
                            let r = fields_of(right_scalars@);
                            assert(0 <= i < l.len());
                            assert(l[i as int] == left_scalars@[i as int]@);
                            assert(r[i as int] == right_scalars@[i as int]@);
                            assert(l[i as int].is_list == r[i as int].is_list);
                        }
                        return Err(EdgeError::ArraySideMismatch);
                    }
                    proof {
                        let l = fields_of(left_scalars@);
                        let r = fields_of(right_scalars@);
                        assert(l[i as int] == left_scalars@[i as int]@);
                        assert(r[i as int] == right_scalars@[i as int]@);
                    }
                    i += 1;
                }
            },
            Multiplicity::Single => {},
        }
        Ok(RelationEdge { name, multiplicity, related_collection, left_scalars, right_scalars })
    }

    /// The relation's name.
    pub fn name(&self) -> (res: &str)
        ensures
            res@ == self@.name,
    {
        self.name.as_str()
    }

    /// Whether the relation is many-to-many.
    pub fn is_many_to_many(&self) -> (res: bool)
        ensures
            res == (self@.multiplicity == Multiplicity::ManyToMany),
    {
        match self.multiplicity {
            Multiplicity::ManyToMany => true,
            Multiplicity::Single => false,
        }
    }

    /// The collection the relation leads to.
    pub fn related_collection(&self) -> (res: &str)
        ensures
            res@ == self@.collection,
    {
        self.related_collection.as_str()
    }

    /// The key fields on the source side.
    pub fn left_scalars(&self) -> (res: &Vec<ScalarField>)
        ensures
            fields_of(res@) == self@.left,
    {
        &self.left_scalars
    }

    /// The key fields on the target side.
    pub fn right_scalars(&self) -> (res: &Vec<ScalarField>)
        ensures
            fields_of(res@) == self@.right,
    {
        &self.right_scalars
    }

    /// Every edge that exists pairs its keys as [`EdgeModel::wf`] says.
    pub fn check_well_formed(&self)
        ensures
            self@.wf(),
    {
        proof {
            use_type_invariant(self);
        }
    }
}

/// How a stage refers to a field of the document at hand: the field's name
/// behind a dollar sign.
pub open spec fn field_ref(name: Seq<char>) -> Seq<char> {
    "$"@ + name
}

/// The name of the variable that carries the source key at position `idx`
/// into the sub-pipeline.
pub open spec fn left_name(idx: int) -> Seq<char> {
    "left_"@ + decimal(idx as nat)
}

/// How the sub-pipeline refers to the variable of position `idx`.
pub open spec fn left_ref(idx: int) -> Seq<char> {
    "$$left_"@ + decimal(idx as nat)
}

/// An operator applied to two operands given by reference.
pub open spec fn operator(op: Seq<char>, first: Seq<char>, second: Seq<char>) -> Value {
    Value::Document(seq![(op, Value::Array(seq![Value::Text(first), Value::Text(second)]))])
}

/// The predicate that correlates the key pair at position `idx`.
///
/// A single relation compares the target field with the source variable for
/// equality. A many-to-many relation tests membership: the source value in the
/// target array where the target side holds the array, the target value in the
/// source array where the source side does.
pub open spec fn correlation(edge: EdgeModel, idx: int) -> Value {
    let target = field_ref(edge.right[idx].name);
    let source = left_ref(idx);
    match edge.multiplicity {
        Multiplicity::ManyToMany => if edge.right[idx].is_list {
            operator("$in"@, source, target)
        } else {
            operator("$in"@, target, source)
        },
        Multiplicity::Single => operator("$eq"@, target, source),
    }
}

/// The correlation predicates of an edge, one per target key, in key order.
pub open spec fn correlations(edge: EdgeModel) -> Seq<Value> {
    Seq::new(edge.right.len(), |i: int| correlation(edge, i))
}

/// The match stage of a lookup's sub-pipeline: all correlation predicates,
/// conjoined.
pub open spec fn match_stage(edge: EdgeModel) -> Value {
    Value::Document(
        seq![
            (
                "$match"@,
                Value::Document(
                    seq![("$expr"@, Value::Document(seq![("$and"@, Value::Array(correlations(edge)))]))],
                ),
            ),
        ],
    )
}

/// The value of a field read as an array: the field itself where it holds an
/// array, the empty array where it holds anything else.
pub open spec fn array_or_empty(target: Seq<char>) -> Value {
    Value::Document(
        seq![
            (
                "$cond"@,
                Value::Document(
                    seq![
                        (
                            "if"@,
                            Value::Document(
                                seq![
                                    (
                                        "$ne"@,
                                        Value::Array(
                                            seq![
                                                Value::Document(seq![("$type"@, Value::Text(target))]),
                                                Value::Text("array"@),
                                            ],
                                        ),
                                    ),
                                ],
                            ),
                        ),
                        ("then"@, Value::Array(Seq::empty())),
                        ("else"@, Value::Text(target)),
                    ],
                ),
            ),
        ],
    )
}

/// The fields that the normalization stage computes: each array-valued target
/// key, read as an array.
pub open spec fn normalized_fields(right: Seq<FieldModel>) -> Entries
    decreases right.len(),
{
    if right.len() == 0 {
        Seq::empty()
    } else {
        let rest = normalized_fields(right.drop_last());
        let field = right.last();
        if field.is_list {
            put(rest, field.name, array_or_empty(field_ref(field.name)))
        } else {
            rest
        }
    }
}

/// The normalization stage of a lookup's sub-pipeline. A many-to-many edge with
/// an array-valued target key has one; no other edge does.
pub open spec fn normalize_stage(edge: EdgeModel) -> Option<Value> {
    if edge.multiplicity == Multiplicity::ManyToMany && any_list(edge.right) {
        Some(Value::Document(seq![("$addFields"@, Value::Document(normalized_fields(edge.right)))]))
    } else {
        None
    }
}

/// The variables that a lookup binds from the source document: one per source
/// key, in key order, each named by its position and bound to its key.
pub open spec fn let_variables(left: Seq<FieldModel>) -> Entries {
    Seq::new(left.len(), |i: int| (left_name(i), Value::Text(field_ref(left[i].name))))
}

/// Variables of different positions have different names, so that binding
/// them one after the other binds them all.
proof fn lemma_variables_upto(left: Seq<FieldModel>, n: int)
    requires
        0 <= n <= left.len(),
    ensures
        put_all(Seq::empty(), let_variables(left).take(n)) == let_variables(left).take(n),
    decreases n,
{
    let pairs = let_variables(left);
    if n == 0 {
        assert(pairs.take(0) =~= Seq::<(Seq<char>, Value)>::empty());
    } else {
        lemma_variables_upto(left, n - 1);
        let before = pairs.take(n - 1);
        assert(pairs.take(n).drop_last() =~= before);
        assert(pairs.take(n).last() == pairs[n - 1]);
        assert(!has_key(before, left_name(n - 1))) by {
            if has_key(before, left_name(n - 1)) {
                let i = choose|i: int| 0 <= i < before.len() && (#[trigger] before[i]).0 == left_name(n - 1);
                assert(before[i].0 == left_name(i));
                assert(decimal(i as nat) =~= left_name(i).skip("left_"@.len() as int));
                assert(decimal((n - 1) as nat) =~= left_name(n - 1).skip("left_"@.len() as int));
                lemma_decimal_is_injective(i as nat, (n - 1) as nat);
            }
        }
        lemma_put_fresh(before, pairs[n - 1].0, pairs[n - 1].1);
        assert(before.push(pairs[n - 1]) =~= pairs.take(n));
    }
}

/// A node of a join tree as a mathematical value.
pub struct JoinNode {
    pub edge: EdgeModel,
    pub alias: Option<Seq<char>>,
    pub nested: Seq<JoinNode>,
}

impl JoinNode {
    /// The field the joined documents are attached under: the alias, or the
    /// relation's name where no alias is set.
    pub open spec fn field_name(self) -> Seq<char> {
        match self.alias {
            Some(alias) => alias,
            None => self.edge.name,
        }
    }
}

/// The lookup stage of a join node.
pub open spec fn lookup_stage(node: JoinNode) -> Entries
    decreases node, 1int,
{
    seq![
        (
            "$lookup"@,
            Value::Document(
                seq![
                    ("from"@, Value::Text(node.edge.collection)),
                    ("let"@, Value::Document(let_variables(node.edge.left))),
                    ("pipeline"@, Value::Array(sub_pipeline(node))),
                    ("as"@, Value::Text(node.field_name())),
                ],
            ),
        ),
    ]
}

/// The first stages of a lookup's sub-pipeline: the normalization stage, if
/// the edge has one, then the match stage.
pub open spec fn correlation_stages(edge: EdgeModel) -> Seq<Value> {
    match normalize_stage(edge) {
        Some(stage) => seq![stage, match_stage(edge)],
        None => seq![match_stage(edge)],
    }
}

/// The sub-pipeline of a node's lookup: normalization and match, then the
/// stages of the nested joins.
pub open spec fn sub_pipeline(node: JoinNode) -> Seq<Value>
    decreases node, 0int,
{
    correlation_stages(node.edge) + nested_stages(node.nested)
}

/// The stages of a list of joins: the lookup stage of each, in order. No join
/// is followed by a stage that unwinds what it attached.
pub open spec fn nested_stages(nodes: Seq<JoinNode>) -> Seq<Value>
    decreases nodes,
{
    if nodes.len() == 0 {
        Seq::empty()
    } else {
        nested_stages(nodes.drop_last()).push(Value::Document(lookup_stage(nodes.last())))
    }
}

/// The stages of the first `n + 1` joins are those of the first `n`, then the
/// lookup of the join at `n`.
pub proof fn lemma_nested_stages_step(nodes: Seq<JoinNode>, n: int)
    requires
        0 <= n < nodes.len(),
    ensures
        nested_stages(nodes.take(n + 1)) == nested_stages(nodes.take(n)).push(
            Value::Document(lookup_stage(nodes[n])),
        ),
{
    assert(nodes.take(n + 1).drop_last() =~= nodes.take(n));
    assert(nodes.take(n + 1).last() == nodes[n]);
}

/// A join with its nested joins.
///
/// Every document of the source side is joined with the documents of the
/// collection that the relation leads to; those can be joined again with
/// relations that start from their collection.
#[derive(Debug)]
pub struct JoinStage {
    /// The relation that is followed, seen from the source side.
    pub source: RelationEdge,
    /// The field the joined documents are attached under, where it is not the
    /// relation's name.
    pub alias: Option<String>,
    /// The joins on the joined documents.
    pub nested: Vec<JoinStage>,
}

/// The node that a join stands for.
pub open spec fn node_of(stage: JoinStage) -> JoinNode
    decreases stage,
{
    JoinNode {
        edge: stage.source@,
        alias: match stage.alias {
            Some(alias) => Some(alias@),
            None => None,
        },
        nested: Seq::new(
            stage.nested@.len(),
            |i: int|
                if 0 <= i < stage.nested@.len() {
                    node_of(stage.nested@[i])
                } else {
                    arbitrary()
                },
        ),
    }
}

impl View for JoinStage {
    type V = JoinNode;

    open spec fn view(&self) -> JoinNode {
        node_of(*self)
    }
}

/// The nodes of a list of joins, one for one.
pub open spec fn nodes_of(stages: Seq<JoinStage>) -> Seq<JoinNode> {
    stages.map_values(|s: JoinStage| s@)
}

fn operator_doc(op: &str, first: String, second: String) -> (b: Bson)
    ensures
        bson_value(b) == operator(op@, first@, second@),
{
    let ghost first_text = first@;
    let ghost second_text = second@;
    let mut operands: Vec<Bson> = Vec::new();
    operands.push(bson_string(first));
    operands.push(bson_string(second));
    assert(values_of(operands@) =~= seq![Value::Text(first_text), Value::Text(second_text)]);
    bson_document(single_entry(op, bson_array(operands)))
}

fn correlation_ops(edge: &RelationEdge) -> (ops: Vec<Bson>)
    ensures
        values_of(ops@) == correlations(edge@),
{
    let mut ops: Vec<Bson> = Vec::new();
    let mut idx: usize = 0;
    while idx < edge.right_scalars.len()
        invariant
            idx <= edge.right_scalars@.len(),
            values_of(ops@) == correlations(edge@).take(idx as int),
        decreases edge.right_scalars@.len() - idx,
    {
        let right_field = &edge.right_scalars[idx];
        let right_ref = joined("$", right_field.db_name.as_str());
        let left_var = joined("$$left_", decimal_string(idx).as_str());
        let op = match edge.multiplicity {
            Multiplicity::ManyToMany => if right_field.is_list {
                operator_doc("$in", left_var, right_ref)
            } else {
                operator_doc("$in", right_ref, left_var)
            },
            Multiplicity::Single => operator_doc("$eq", right_ref, left_var),
        };
        proof {
            assert(edge@.right[idx as int] == right_field@);
            assert(bson_value(op) == correlation(edge@, idx as int));
            lemma_values_push(ops@, op);
            assert(correlations(edge@).take(idx + 1) =~= correlations(edge@).take(idx as int).push(
                correlation(edge@, idx as int),
            ));
        }
        ops.push(op);
        idx += 1;
    }
    assert(correlations(edge@).take(idx as int) =~= correlations(edge@));
    ops
}

fn match_stage_doc(edge: &RelationEdge) -> (b: Bson)
    ensures
        bson_value(b) == match_stage(edge@),
{
    let ops = correlation_ops(edge);
    let conjunction = single_entry("$and", bson_array(ops));
    let expr = single_entry("$expr", bson_document(conjunction));
    bson_document(single_entry("$match", bson_document(expr)))
}

fn array_or_empty_doc(target: &str) -> (b: Bson)
    ensures
        bson_value(b) == array_or_empty(target@),
{
    let type_of = bson_document(single_entry("$type", bson_text(target)));
    let array_name = bson_text("array");
    let mut operands: Vec<Bson> = Vec::new();
    operands.push(type_of);
    operands.push(array_name);
    assert(values_of(operands@) =~= seq![bson_value(type_of), bson_value(array_name)]);
    let condition = bson_document(single_entry("$ne", bson_array(operands)));
    let nothing: Vec<Bson> = Vec::new();
    assert(values_of(nothing@) =~= Seq::<Value>::empty());
    let then_value = bson_array(nothing);
    let else_value = bson_text(target);
    let mut cond = Document::new();
    doc_insert(&mut cond, String::from_str("if"), condition);
    let ghost one = doc_entries(cond);
    doc_insert(&mut cond, String::from_str("then"), then_value);
    let ghost two = doc_entries(cond);
    doc_insert(&mut cond, String::from_str("else"), else_value);
    proof {
        reveal_strlit("if");
        reveal_strlit("then");
        reveal_strlit("else");
        assert(one =~= seq![("if"@, bson_value(condition))]);
        assert("if"@.len() == 2 && "then"@.len() == 4 && "else"@.len() == 4);
        assert(!has_key(one, "then"@));
        lemma_put_fresh(one, "then"@, bson_value(then_value));
        assert("then"@[0] != "else"@[0]);
        assert(!has_key(two, "else"@));
        lemma_put_fresh(two, "else"@, bson_value(else_value));
        assert(doc_entries(cond) =~= seq![
            ("if"@, bson_value(condition)),
            ("then"@, bson_value(then_value)),
            ("else"@, bson_value(else_value)),
        ]);
    }
    bson_document(single_entry("$cond", bson_document(cond)))
}

fn has_list_field(fields: &Vec<ScalarField>) -> (res: bool)
    ensures
        res == any_list(fields_of(fields@)),
{
    let mut i: usize = 0;
    while i < fields.len()
        invariant
            i <= fields@.len(),
            forall|j: int| 0 <= j < i ==> !(#[trigger] fields_of(fields@)[j]).is_list,
        decreases fields@.len() - i,
    {
        if fields[i].is_list {
            assert(fields_of(fields@)[i as int].is_list);
            return true;
        }
        assert(fields_of(fields@)[i as int] == fields@[i as int]@);
        i += 1;
    }
    false
}

fn normalization_stage(edge: &RelationEdge) -> (res: Option<Bson>)
    ensures
        match res {
            Some(b) => normalize_stage(edge@) == Some(bson_value(b)),
            None => normalize_stage(edge@) is None,
        },
{
    let many = match edge.multiplicity {
        Multiplicity::ManyToMany => true,
        Multiplicity::Single => false,
    };
    if !many || !has_list_field(&edge.right_scalars) {
        return None;
    }
    let mut add_fields = Document::new();
    let mut i: usize = 0;
    while i < edge.right_scalars.len()
        invariant
            i <= edge.right_scalars@.len(),
            doc_entries(add_fields) == normalized_fields(edge@.right.take(i as int)),
        decreases edge.right_scalars@.len() - i,
    {
        let field = &edge.right_scalars[i];
        proof {
            assert(edge@.right.take(i + 1).drop_last() =~= edge@.right.take(i as int));
            assert(edge@.right.take(i + 1).last() == field@);
        }
        if field.is_list {
            let target = joined("$", field.db_name.as_str());
            let value = array_or_empty_doc(target.as_str());
            doc_insert(&mut add_fields, field.db_name.clone(), value);
        }
        i += 1;
    }
    assert(edge@.right.take(i as int) =~= edge@.right);
    Some(bson_document(single_entry("$addFields", bson_document(add_fields))))
}

fn let_variables_doc(edge: &RelationEdge) -> (doc: Document)
    ensures
        doc_entries(doc) == let_variables(edge@.left),
{
    let ghost pairs = let_variables(edge@.left);
    let mut let_vars = Document::new();
    let mut idx: usize = 0;
    assert(pairs.take(0) =~= Seq::<(Seq<char>, Value)>::empty());
    while idx < edge.left_scalars.len()
        invariant
            idx <= edge.left_scalars@.len(),
            pairs == let_variables(edge@.left),
            doc_entries(let_vars) == pairs.take(idx as int),
        decreases edge.left_scalars@.len() - idx,
    {
        let left_field = &edge.left_scalars[idx];
        let left_name = joined("left_", decimal_string(idx).as_str());
        let value = bson_string(joined("$", left_field.db_name.as_str()));
        proof {
            assert(edge@.left[idx as int] == left_field@);
            assert(pairs.take(idx + 1).drop_last() =~= pairs.take(idx as int));
            assert(pairs.take(idx + 1).last() == (left_name@, bson_value(value)));
            lemma_variables_upto(edge@.left, idx as int);
            lemma_variables_upto(edge@.left, idx + 1);
        }
        doc_insert(&mut let_vars, left_name, value);
        idx += 1;
    }
    assert(pairs.take(idx as int) =~= pairs);
    let_vars
}

impl JoinStage {
    /// A join over `source`, under the relation's name, with no nested joins.
    pub fn new(source: RelationEdge) -> (res: JoinStage)
        ensures
            res@ == (JoinNode { edge: source@, alias: None, nested: Seq::empty() }),
    {
        let res = JoinStage { source, alias: None, nested: Vec::new() };
        assert(res@.nested =~= Seq::empty());
        res
    }

    /// A copy of the join with copies of its nested joins.
    pub fn clone(&self) -> (res: JoinStage)
        ensures
            res@ == self@,
        decreases self,
    {
        let mut nested: Vec<JoinStage> = Vec::new();
        let mut i: usize = 0;
        while i < self.nested.len()
            invariant
                i <= self.nested@.len(),
                nested@.len() == i,
                forall|j: int| 0 <= j < i ==> (#[trigger] nested@[j])@ == self.nested@[j]@,
            decreases self.nested@.len() - i,
        {
            nested.push(self.nested[i].clone());
            i += 1;
        }
        let alias = match &self.alias {
            Some(alias) => Some(alias.clone()),
            None => None,
        };
        let res = JoinStage { source: self.source.clone(), alias, nested };
        assert(res@.nested =~= self@.nested);
        res
    }

    /// Attaches the joined documents under `alias` in place of the relation's
    /// name.
    pub fn set_alias(&mut self, alias: String)
        ensures
            final(self)@ == (JoinNode { alias: Some(alias@), ..old(self)@ }),
    {
        self.alias = Some(alias);
        assert(self@.nested =~= old(self)@.nested);
    }

    /// Adds a join on the joined documents, after those already there.
    pub fn push_nested(&mut self, stage: JoinStage)
        ensures
            final(self)@ == (JoinNode { nested: old(self)@.nested.push(stage@), ..old(self)@ }),
    {
        self.nested.push(stage);
        assert(self@.nested =~= old(self)@.nested.push(stage@));
    }

    /// Adds joins on the joined documents, in their order, after those already
    /// there.
    pub fn extend_nested(&mut self, stages: Vec<JoinStage>)
        ensures
            final(self)@ == (JoinNode {
                nested: old(self)@.nested + nodes_of(stages@),
                ..old(self)@
            }),
    {
        let ghost added = stages@;
        let mut stages = stages;
        self.nested.append(&mut stages);
        assert(self@.nested =~= old(self)@.nested + nodes_of(added));
    }

    /// Renders the join as a lookup stage.
    ///
    /// The joined documents are attached to each source document as an array,
    /// under the alias or, without one, under the relation's name. The second
    /// part of the result is the stage that would unwind that array into a
    /// single document; no join has one, so a to-one relation yields an array
    /// too.
    pub fn build(&self) -> (res: (Document, Option<Document>))
        ensures
            doc_entries(res.0) == lookup_stage(self@),
            res.1 is None,
        decreases self,
    {
        let mut pipeline: Vec<Bson> = Vec::new();
        assert(values_of(pipeline@) =~= Seq::<Value>::empty());
        match normalization_stage(&self.source) {
            Some(stage) => {
                proof {
                    lemma_values_push(pipeline@, stage);
                }
                pipeline.push(stage);
            },
            None => {},
        }
        let matching = match_stage_doc(&self.source);
        proof {
            lemma_values_push(pipeline@, matching);
        }
        pipeline.push(matching);
        assert(values_of(pipeline@) =~= correlation_stages(self@.edge));

        let mut i: usize = 0;
        assert(self@.nested.take(0) =~= Seq::<JoinNode>::empty());
        while i < self.nested.len()
            invariant
                i <= self.nested@.len(),
                self@.nested.len() == self.nested@.len(),
                values_of(pipeline@) == correlation_stages(self@.edge) + nested_stages(
                    self@.nested.take(i as int),
                ),
            decreases self.nested@.len() - i,
        {
            let (join, unwind) = self.nested[i].build();
            let join_stage = bson_document(join);
            proof {
                assert(self@.nested[i as int] == self.nested@[i as int]@);
                lemma_nested_stages_step(self@.nested, i as int);
                lemma_values_push(pipeline@, join_stage);
                assert((correlation_stages(self@.edge) + nested_stages(self@.nested.take(i as int))).push(
                    bson_value(join_stage),
                ) =~= correlation_stages(self@.edge) + nested_stages(self@.nested.take(i + 1)));
            }
            pipeline.push(join_stage);
            match unwind {
                Some(unwind) => {
                    pipeline.push(bson_document(unwind));
                },
                None => {},
            }
            i += 1;
        }
        assert(self@.nested.take(i as int) =~= self@.nested);

        let as_name = match &self.alias {
            Some(alias) => alias.clone(),
            None => self.source.name.clone(),
        };
        let from_value = bson_string(self.source.related_collection.clone());
        let let_value = bson_document(let_variables_doc(&self.source));
        let pipeline_value = bson_array(pipeline);
        let as_value = bson_string(as_name);

        let mut lookup = Document::new();
        doc_insert(&mut lookup, String::from_str("from"), from_value);
        let ghost one = doc_entries(lookup);
        doc_insert(&mut lookup, String::from_str("let"), let_value);
        let ghost two = doc_entries(lookup);
        doc_insert(&mut lookup, String::from_str("pipeline"), pipeline_value);
        let ghost three = doc_entries(lookup);
        doc_insert(&mut lookup, String::from_str("as"), as_value);
        proof {
            reveal_strlit("from");
            reveal_strlit("let");
            reveal_strlit("pipeline");
            reveal_strlit("as");
            assert(one =~= seq![("from"@, bson_value(from_value))]);
            assert("from"@.len() == 4 && "let"@.len() == 3 && "pipeline"@.len() == 8 && "as"@.len() == 2);
            assert(!has_key(one, "let"@));
            lemma_put_fresh(one, "let"@, bson_value(let_value));
            assert(!has_key(two, "pipeline"@));
            lemma_put_fresh(two, "pipeline"@, bson_value(pipeline_value));
            assert(!has_key(three, "as"@));
            lemma_put_fresh(three, "as"@, bson_value(as_value));
            assert(doc_entries(lookup) =~= seq![
                ("from"@, bson_value(from_value)),
                ("let"@, bson_value(let_value)),
                ("pipeline"@, bson_value(pipeline_value)),
                ("as"@, bson_value(as_value)),
            ]);
        }
        (single_entry("$lookup", bson_document(lookup)), None)
    }
}

/// The fields with the array on the other side: each keeps its name and holds
/// an array exactly where it did not.
pub open spec fn flipped(fields: Seq<FieldModel>) -> Seq<FieldModel> {
    Seq::new(fields.len(), |i: int| FieldModel { name: fields[i].name, is_list: !fields[i].is_list })
}

/// The edge with the array-valued keys on the other side.
pub open spec fn with_sides_swapped(edge: EdgeModel) -> EdgeModel {
    EdgeModel { left: flipped(edge.left), right: flipped(edge.right), ..edge }
}

/// Many-to-many correlation is symmetric: moving the array of a key pair to
/// the other side keeps the edge well-formed and swaps the two operands of the
/// membership test, so that the value is always sought in the array.
pub proof fn lemma_membership_is_symmetric(edge: EdgeModel, idx: int)
    requires
        edge.wf(),
        edge.multiplicity == Multiplicity::ManyToMany,
        0 <= idx < edge.right.len(),
    ensures
        with_sides_swapped(edge).wf(),
        edge.right[idx].is_list ==> correlation(edge, idx) == operator(
            "$in"@,
            left_ref(idx),
            field_ref(edge.right[idx].name),
        ) && correlation(with_sides_swapped(edge), idx) == operator(
            "$in"@,
            field_ref(edge.right[idx].name),
            left_ref(idx),
        ),
        !edge.right[idx].is_list ==> correlation(edge, idx) == operator(
            "$in"@,
            field_ref(edge.right[idx].name),
            left_ref(idx),
        ) && correlation(with_sides_swapped(edge), idx) == operator(
            "$in"@,
            left_ref(idx),
            field_ref(edge.right[idx].name),
        ),
        with_sides_swapped(with_sides_swapped(edge)) == edge,
{
    let swapped = with_sides_swapped(edge);
    assert forall|i: int| 0 <= i < swapped.left.len() implies (#[trigger] swapped.left[i]).is_list
        != swapped.right[i].is_list by {
        assert(edge.left[i].is_list != edge.right[i].is_list);
    }
    assert(flipped(flipped(edge.left)) =~= edge.left);
    assert(flipped(flipped(edge.right)) =~= edge.right);
}

/// The fields under which the joins of a tree attach what they join, the node
/// before its nested joins and those in their order: depth first, pre-order.
pub open spec fn preorder_names(node: JoinNode) -> Seq<Seq<char>>
    decreases node, 1int,
{
    seq![node.field_name()] + preorder_names_all(node.nested)
}

/// The pre-order names of a list of join trees, tree after tree.
pub open spec fn preorder_names_all(nodes: Seq<JoinNode>) -> Seq<Seq<char>>
    decreases nodes, 0int,
{
    if nodes.len() == 0 {
        Seq::empty()
    } else {
        preorder_names_all(nodes.drop_last()) + preorder_names(nodes.last())
    }
}

/// The lookups that a stage holds, by the field each attaches under: the
/// stage's own, if it is a lookup, then those of its sub-pipeline.
pub open spec fn stage_lookups(stage: Value) -> Seq<Seq<char>>
    decreases stage, 0int,
{
    match stage {
        Value::Document(entries) => if entries.len() == 1 && entries[0].0 == "$lookup"@ {
            match entries[0].1 {
                Value::Document(body) => if body.len() == 4 {
                    match (body[2].1, body[3].1) {
                        (Value::Array(stages), Value::Text(name)) => seq![name] + pipeline_lookups(
                            stages,
                        ),
                        _ => Seq::empty(),
                    }
                } else {
                    Seq::empty()
                },
                _ => Seq::empty(),
            }
        } else {
            Seq::empty()
        },
        _ => Seq::empty(),
    }
}

/// The lookups that the stages of a pipeline hold, stage after stage.
pub open spec fn pipeline_lookups(stages: Seq<Value>) -> Seq<Seq<char>>
    decreases stages, 1int,
{
    if stages.len() == 0 {
        Seq::empty()
    } else {
        pipeline_lookups(stages.drop_last()) + stage_lookups(stages.last())
    }
}

/// The lookups of two pipelines, one after the other, are the lookups of the
/// first and then those of the second.
pub proof fn lemma_pipeline_lookups_concat(first: Seq<Value>, second: Seq<Value>)
    ensures
        pipeline_lookups(first + second) == pipeline_lookups(first) + pipeline_lookups(second),
    decreases second.len(),
{
    if second.len() == 0 {
        assert(first + second =~= first);
        assert(pipeline_lookups(first) + pipeline_lookups(second) =~= pipeline_lookups(first));
    } else {
        assert((first + second).drop_last() =~= first + second.drop_last());
        assert((first + second).last() == second.last());
        lemma_pipeline_lookups_concat(first, second.drop_last());
        assert(pipeline_lookups(first) + pipeline_lookups(second.drop_last()) + stage_lookups(second.last())
            =~= pipeline_lookups(first) + (pipeline_lookups(second.drop_last()) + stage_lookups(
            second.last(),
        )));
    }
}

/// The lookups of a pipeline of one stage are those of the stage.
pub proof fn lemma_pipeline_lookups_one(stage: Value)
    ensures
        pipeline_lookups(seq![stage]) == stage_lookups(stage),
{
    let one = seq![stage];
    assert(one.drop_last() =~= Seq::<Value>::empty());
    assert(pipeline_lookups(one.drop_last()) =~= Seq::<Seq<char>>::empty());
    assert(pipeline_lookups(one) =~= stage_lookups(stage));
}

/// The stages that correlate a lookup hold no lookup themselves.
pub proof fn lemma_correlation_stages_hold_no_lookup(edge: EdgeModel)
    ensures
        pipeline_lookups(correlation_stages(edge)) == Seq::<Seq<char>>::empty(),
{
    reveal_strlit("$lookup");
    reveal_strlit("$match");
    reveal_strlit("$addFields");
    assert("$lookup"@.len() == 7 && "$match"@.len() == 6 && "$addFields"@.len() == 10);
    let stages = correlation_stages(edge);
    assert(stage_lookups(match_stage(edge)) =~= Seq::<Seq<char>>::empty());
    lemma_pipeline_lookups_one(match_stage(edge));
    match normalize_stage(edge) {
        Some(stage) => {
            assert(stage_lookups(stage) =~= Seq::<Seq<char>>::empty());
            lemma_pipeline_lookups_one(stage);
            assert(stages =~= seq![stage] + seq![match_stage(edge)]);
            lemma_pipeline_lookups_concat(seq![stage], seq![match_stage(edge)]);
        },
        None => {},
    }
}

/// A rendered join tree holds one lookup for each of its nodes, and they come
/// in depth-first pre-order: the lookup of a node, then, inside its
/// sub-pipeline, the lookups of its nested joins in their order.
pub proof fn lemma_lookups_in_preorder(node: JoinNode)
    ensures
        stage_lookups(Value::Document(lookup_stage(node))) == preorder_names(node),
    decreases node, 1int,
{
    reveal_strlit("$lookup");
    let stage = lookup_stage(node);
    lemma_correlation_stages_hold_no_lookup(node.edge);
    lemma_pipeline_lookups_concat(correlation_stages(node.edge), nested_stages(node.nested));
    lemma_nested_lookups_in_preorder(node.nested);
    assert(pipeline_lookups(sub_pipeline(node)) =~= preorder_names_all(node.nested));
    assert(stage[0].1->Document_0[2].1 == Value::Array(sub_pipeline(node)));
    assert(stage[0].1->Document_0[3].1 == Value::Text(node.field_name()));
}

/// The rendered joins of a list hold the lookups of all their nodes, tree
/// after tree, each in depth-first pre-order.
pub proof fn lemma_nested_lookups_in_preorder(nodes: Seq<JoinNode>)
    ensures
        pipeline_lookups(nested_stages(nodes)) == preorder_names_all(nodes),
    decreases nodes, 0int,
{
    if nodes.len() > 0 {
        lemma_nested_lookups_in_preorder(nodes.drop_last());
        lemma_lookups_in_preorder(nodes.last());
        let stages = nested_stages(nodes);
        assert(stages.drop_last() =~= nested_stages(nodes.drop_last()));
        assert(stages.last() == Value::Document(lookup_stage(nodes.last())));
    }
}

/// The number of nodes of a join tree.
pub open spec fn node_count(node: JoinNode) -> nat
    decreases node, 1int,
{
    1 + node_count_all(node.nested)
}

/// The number of nodes of a list of join trees.
pub open spec fn node_count_all(nodes: Seq<JoinNode>) -> nat
    decreases nodes, 0int,
{
    if nodes.len() == 0 {
        0
    } else {
        node_count_all(nodes.drop_last()) + node_count(nodes.last())
    }
}

/// A rendered join tree holds exactly as many lookups as the tree has nodes.
pub proof fn lemma_one_lookup_per_node(node: JoinNode)
    ensures
        stage_lookups(Value::Document(lookup_stage(node))).len() == node_count(node),
    decreases node, 1int,
{
    lemma_lookups_in_preorder(node);
    lemma_preorder_counts_all(node.nested);
}

proof fn lemma_preorder_counts_all(nodes: Seq<JoinNode>)
    ensures
        preorder_names_all(nodes).len() == node_count_all(nodes),
    decreases nodes, 0int,
{
    if nodes.len() > 0 {
        lemma_preorder_counts_all(nodes.drop_last());
        lemma_preorder_counts_all(nodes.last().nested);
        let last = nodes.last();
        assert(preorder_names(last).len() == 1 + preorder_names_all(last.nested).len());
        assert(node_count(last) == 1 + node_count_all(last.nested));
    }
}

} // verus!
