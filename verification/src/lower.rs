//! Lowering of the data model to the schema syntax tree: how the fields of
//! keys and indexes are written as expressions.

use crate::primary_key::SortOrder;
use crate::text::{decimal, decimal_string};
use vstd::prelude::*;

verus! {

/// A place in the source text. What is lowered has no place there: its span
/// is empty.
#[derive(Clone, Copy, Debug, PartialEq, Eq, Structural)]
pub struct Span {
    pub start: usize,
    pub end: usize,
}

impl Span {
    pub open spec fn spec_empty() -> Span {
        Span { start: 0, end: 0 }
    }

    /// The span of what has no place in the source text.
    #[verifier::when_used_as_spec(spec_empty)]
    pub fn empty() -> (res: Span)
        ensures
            res == Span::spec_empty(),
    {
        Span { start: 0, end: 0 }
    }
}

/// A name in the syntax tree.
#[derive(Debug)]
pub struct Identifier {
    pub name: String,
    pub span: Span,
}

/// An expression of the schema language.
#[derive(Debug)]
pub enum Expression {
    /// A number, as written.
    NumericValue(String, Span),
    /// A string.
    StringValue(String, Span),
    /// A constant: a bare name.
    ConstantValue(String, Span),
    /// A function call: the name and the arguments.
    Function(String, ArgumentsList, Span),
}

/// An argument: the value, under a name where it has one.
#[derive(Debug)]
pub struct Argument {
    pub name: Option<Identifier>,
    pub value: Expression,
    pub span: Span,
}

/// The arguments of a call.
#[derive(Debug)]
pub struct ArgumentsList {
    pub arguments: Vec<Argument>,
    pub trailing_comma: Option<Span>,
}

/// An expression as a mathematical value.
pub enum ExpressionModel {
    NumericValue(Seq<char>, Span),
    StringValue(Seq<char>, Span),
    ConstantValue(Seq<char>, Span),
    Function(Seq<char>, Seq<ArgumentModel>, Option<Span>, Span),
}

/// An argument as a mathematical value.
pub struct ArgumentModel {
    pub name: Option<(Seq<char>, Span)>,
    pub value: ExpressionModel,
    pub span: Span,
}

/// What an expression stands for.
pub open spec fn expression_model(expression: Expression) -> ExpressionModel
    decreases expression,
{
    match expression {
        Expression::NumericValue(text, span) => ExpressionModel::NumericValue(text@, span),
        Expression::StringValue(text, span) => ExpressionModel::StringValue(text@, span),
        Expression::ConstantValue(text, span) => ExpressionModel::ConstantValue(text@, span),
        Expression::Function(name, arguments, span) => ExpressionModel::Function(
            name@,
            Seq::new(
                arguments.arguments@.len(),
                |i: int|
                    if 0 <= i < arguments.arguments@.len() {
                        argument_model(arguments.arguments@[i])
                    } else {
                        arbitrary()
                    },
            ),
            arguments.trailing_comma,
            span,
        ),
    }
}

/// What an argument stands for.
pub open spec fn argument_model(argument: Argument) -> ArgumentModel
    decreases argument,
{
    ArgumentModel {
        name: match argument.name {
            Some(name) => Some((name.name@, name.span)),
            None => None,
        },
        value: expression_model(argument.value),
        span: argument.span,
    }
}

impl View for Expression {
    type V = ExpressionModel;

    open spec fn view(&self) -> ExpressionModel {
        expression_model(*self)
    }
}

impl View for Argument {
    type V = ArgumentModel;

    open spec fn view(&self) -> ArgumentModel {
        argument_model(*self)
    }
}

/// The expressions of a list, one for one.
pub open spec fn expressions_of(expressions: Seq<Expression>) -> Seq<ExpressionModel> {
    expressions.map_values(|e: Expression| e@)
}

/// The arguments of a list, one for one.
pub open spec fn arguments_of(arguments: Seq<Argument>) -> Seq<ArgumentModel> {
    arguments.map_values(|a: Argument| a@)
}

impl Argument {
    /// The argument `name: value` with a number for its value.
    pub fn new_numeric(name: &str, value: u32) -> (res: Argument)
        ensures
            res@ == numeric_argument(name@, value),
    {
        Argument {
            name: Some(Identifier { name: String::from_str(name), span: Span::empty() }),
            value: Expression::NumericValue(decimal_string(value as usize), Span::empty()),
            span: Span::empty(),
        }
    }

    /// The argument `name: value` with a constant for its value.
    pub fn new_constant(name: &str, value: &str) -> (res: Argument)
        ensures
            res@ == constant_argument(name@, value@),
    {
        Argument {
            name: Some(Identifier { name: String::from_str(name), span: Span::empty() }),
            value: Expression::ConstantValue(String::from_str(value), Span::empty()),
            span: Span::empty(),
        }
    }
}

/// The argument `name: value` with a number, written in decimal, for its value.
pub open spec fn numeric_argument(name: Seq<char>, value: u32) -> ArgumentModel {
    ArgumentModel {
        name: Some((name, Span::empty())),
        value: ExpressionModel::NumericValue(decimal(value as nat), Span::empty()),
        span: Span::empty(),
    }
}

/// The argument `name: value` with a constant for its value.
pub open spec fn constant_argument(name: Seq<char>, value: Seq<char>) -> ArgumentModel {
    ArgumentModel {
        name: Some((name, Span::empty())),
        value: ExpressionModel::ConstantValue(value, Span::empty()),
        span: Span::empty(),
    }
}

/// A field of a primary key in the data model.
#[derive(Debug)]
pub struct PrimaryKeyField {
    pub name: String,
    pub sort_order: Option<SortOrder>,
    pub length: Option<u32>,
}

/// A field of an index in the data model.
#[derive(Debug)]
pub struct IndexField {
    pub name: String,
    pub sort_order: Option<SortOrder>,
    pub length: Option<u32>,
}

/// The `length` argument of a field, where it has a length.
pub open spec fn length_arguments(length: Option<u32>) -> Seq<ArgumentModel> {
    match length {
        Some(length) => seq![numeric_argument("length"@, length)],
        None => Seq::empty(),
    }
}

/// How a direction is written.
pub open spec fn sort_name(sort_order: SortOrder) -> Seq<char> {
    match sort_order {
        SortOrder::Asc => "Asc"@,
        SortOrder::Desc => "Desc"@,
    }
}

/// The `sort` argument of a field. A descending field always has one; an
/// ascending field has one only where every direction is to be written; a
/// field without a direction has none.
pub open spec fn sort_arguments(sort_order: Option<SortOrder>, always: bool) -> Seq<ArgumentModel> {
    match sort_order {
        Some(sort_order) => if always || sort_order == SortOrder::Desc {
            seq![constant_argument("sort"@, sort_name(sort_order))]
        } else {
            Seq::empty()
        },
        None => Seq::empty(),
    }
}

/// A field with its arguments as an expression: the bare name where there is
/// no argument, a call of the name otherwise.
pub open spec fn field_expression(name: Seq<char>, arguments: Seq<ArgumentModel>) -> ExpressionModel {
    if arguments.len() == 0 {
        ExpressionModel::ConstantValue(name, Span::empty())
    } else {
        ExpressionModel::Function(name, arguments, None, Span::empty())
    }
}

/// A field of a primary key as an expression: with its length where it has
/// one, and with its direction where it is descending.
pub open spec fn pk_field_expression(field: PrimaryKeyField) -> ExpressionModel {
    field_expression(field.name@, length_arguments(field.length) + sort_arguments(field.sort_order, false))
}

/// A field of an index as an expression: with its length where it has one, and
/// with its direction as [`sort_arguments`] says.
pub open spec fn index_field_expression(field: IndexField, always_render_sort_order: bool) -> ExpressionModel {
    field_expression(
        field.name@,
        length_arguments(field.length) + sort_arguments(field.sort_order, always_render_sort_order),
    )
}

fn field_with_arguments(name: &String, length: Option<u32>, sort_order: Option<SortOrder>, always: bool) -> (res:
    Expression)
    ensures
        res@ == field_expression(name@, length_arguments(length) + sort_arguments(sort_order, always)),
{
    let ghost wanted = length_arguments(length) + sort_arguments(sort_order, always);
    let mut args: Vec<Argument> = Vec::new();
    match length {
        Some(length) => {
            args.push(Argument::new_numeric("length", length));
        },
        None => {},
    }
    match sort_order {
        Some(SortOrder::Asc) => {
            if always {
                args.push(Argument::new_constant("sort", "Asc"));
            }
        },
        Some(SortOrder::Desc) => {
            args.push(Argument::new_constant("sort", "Desc"));
        },
        None => {},
    }
    assert(arguments_of(args@) =~= wanted);
    if args.len() == 0 {
        Expression::ConstantValue(name.clone(), Span::empty())
    } else {
        let res = Expression::Function(
            name.clone(),
            ArgumentsList { arguments: args, trailing_comma: None },
            Span::empty(),
        );
        assert(res@->Function_1 =~= arguments_of(args@));
        res
    }
}

/// Lowers the data model to the schema syntax tree.
#[derive(Debug)]
pub struct LowerDmlToAst<'a> {
    pub datasource: Option<&'a Datasource>,
    /// The preview features that are switched on, one bit each.
    pub preview_features: u64,
}

/// The source of the data that a schema describes.
#[derive(Debug)]
pub struct Datasource {
    pub name: String,
}

impl<'a> LowerDmlToAst<'a> {
    pub fn new(datasource: Option<&'a Datasource>, preview_features: u64) -> (res: Self)
        ensures
            res.datasource == datasource,
            res.preview_features == preview_features,
    {
        Self { datasource, preview_features }
    }

    /// The fields as expressions: each a constant of its name.
    pub fn field_array(fields: &[String]) -> (res: Vec<Expression>)
        ensures
            res@.len() == fields@.len(),
            forall|i: int|
                0 <= i < res@.len() ==> (#[trigger] res@[i])@ == ExpressionModel::ConstantValue(
                    fields@[i]@,
                    Span::empty(),
                ),
    {
        let mut res: Vec<Expression> = Vec::new();
        let mut i: usize = 0;
        while i < fields.len()
            invariant
                i <= fields@.len(),
                res@.len() == i,
                forall|j: int|
                    0 <= j < i ==> (#[trigger] res@[j])@ == ExpressionModel::ConstantValue(
                        fields@[j]@,
                        Span::empty(),
                    ),
            decreases fields@.len() - i,
        {
            res.push(Expression::ConstantValue(fields[i].clone(), Span::empty()));
            i += 1;
        }
        res
    }

    /// The fields of a primary key as expressions.
    pub fn pk_field_array(fields: &[PrimaryKeyField]) -> (res: Vec<Expression>)
        ensures
            res@.len() == fields@.len(),
            forall|i: int| 0 <= i < res@.len() ==> (#[trigger] res@[i])@ == pk_field_expression(fields@[i]),
    {
        let mut res: Vec<Expression> = Vec::new();
        let mut i: usize = 0;
        while i < fields.len()
            invariant
                i <= fields@.len(),
                res@.len() == i,
                forall|j: int| 0 <= j < i ==> (#[trigger] res@[j])@ == pk_field_expression(fields@[j]),
            decreases fields@.len() - i,
        {
            let f = &fields[i];
            res.push(field_with_arguments(&f.name, f.length, f.sort_order, false));
            i += 1;
        }
        res
    }

    /// The fields of an index as expressions.
    pub fn index_field_array(fields: &[IndexField], always_render_sort_order: bool) -> (res: Vec<
        Expression,
    >)
        ensures
            res@.len() == fields@.len(),
            forall|i: int|
                0 <= i < res@.len() ==> (#[trigger] res@[i])@ == index_field_expression(
                    fields@[i],
                    always_render_sort_order,
                ),
    {
        let mut res: Vec<Expression> = Vec::new();
        let mut i: usize = 0;
        while i < fields.len()
            invariant
                i <= fields@.len(),
                res@.len() == i,
                forall|j: int|
                    0 <= j < i ==> (#[trigger] res@[j])@ == index_field_expression(
                        fields@[j],
                        always_render_sort_order,
                    ),
            decreases fields@.len() - i,
        {
            let f = &fields[i];
            res.push(field_with_arguments(&f.name, f.length, f.sort_order, always_render_sort_order));
            i += 1;
        }
        res
    }
}

} // verus!
