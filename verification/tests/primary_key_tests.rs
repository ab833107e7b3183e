use engine_core::primary_key::{
    Attribute, AttributeId, FieldId, FieldWithArgs, IdAttribute, ModelAttributes, ModelId,
    ParserDatabase, PrimaryKeyWalker, ScalarFieldType, SortOrder, StringId, Types,
};

fn key_field(id: u32) -> FieldWithArgs {
    FieldWithArgs { field_id: FieldId(id), sort_order: None, length: None }
}

fn scalar(mapped_name: Option<StringId>) -> ScalarFieldType {
    ScalarFieldType { is_ignored: false, mapped_name }
}

fn database() -> ParserDatabase {
    ParserDatabase {
        ast: vec![Attribute { name: "unique".to_string() }, Attribute { name: "id".to_string() }],
        interner: vec!["clientName".to_string(), "mappedName".to_string()],
        types: Types {
            model_attributes: vec![
                ModelAttributes { primary_key: None, is_ignored: false },
                ModelAttributes { primary_key: None, is_ignored: true },
            ],
            scalar_fields: vec![
                vec![scalar(None)],
                vec![scalar(None), scalar(Some(StringId(1))), scalar(None)],
            ],
        },
    }
}

fn compound_key() -> IdAttribute {
    IdAttribute {
        source_attribute: AttributeId(1),
        source_field: None,
        fields: vec![
            FieldWithArgs { field_id: FieldId(2), sort_order: Some(SortOrder::Desc), length: Some(5) },
            key_field(0),
        ],
        name: Some(StringId(0)),
        mapped_name: Some(StringId(1)),
    }
}

fn field_key() -> IdAttribute {
    IdAttribute {
        source_attribute: AttributeId(1),
        source_field: Some(FieldId(1)),
        fields: vec![key_field(1)],
        name: None,
        mapped_name: None,
    }
}

#[test]
fn walker_over_a_compound_key() {
    let db = database();
    let attribute = compound_key();
    let walker = PrimaryKeyWalker { model_id: ModelId(1), attribute: &attribute, db: &db };
    assert!(walker.is_valid());
    assert_eq!(walker.ast_attribute().name, "id");
    assert_eq!(walker.name(), Some("clientName"));
    assert_eq!(walker.mapped_name(), Some("mappedName"));
    assert!(!walker.is_defined_on_field());
    let model = walker.model();
    assert_eq!(model.model_id, ModelId(1));
    assert!(model.model_attributes.is_ignored);
}

#[test]
fn walker_over_a_field_key() {
    let db = database();
    let attribute = field_key();
    let walker = PrimaryKeyWalker { model_id: ModelId(1), attribute: &attribute, db: &db };
    assert!(walker.is_valid());
    assert!(walker.is_defined_on_field());
    assert_eq!(walker.name(), None);
    assert_eq!(walker.mapped_name(), None);
}

#[test]
fn fields_come_in_key_order() {
    let db = database();
    let attribute = compound_key();
    let walker = PrimaryKeyWalker { model_id: ModelId(1), attribute: &attribute, db: &db };
    let fields = walker.fields();
    assert_eq!(fields.len(), 2);
    assert_eq!(fields[0].field_id, FieldId(2));
    assert_eq!(fields[1].field_id, FieldId(0));
    assert_eq!(fields[0].model_id, ModelId(1));
    assert_eq!(fields[0].scalar_field.mapped_name, None);
    let other = field_key();
    let other_walker = PrimaryKeyWalker { model_id: ModelId(1), attribute: &other, db: &db };
    assert_eq!(other_walker.fields()[0].scalar_field.mapped_name, Some(StringId(1)));
}

#[test]
fn scalar_field_attributes_number_the_positions() {
    let db = database();
    let attribute = compound_key();
    let walker = PrimaryKeyWalker { model_id: ModelId(1), attribute: &attribute, db: &db };
    let attributes = walker.scalar_field_attributes();
    assert_eq!(attributes.len(), 2);
    for (i, attribute_walker) in attributes.iter().enumerate() {
        assert_eq!(attribute_walker.field_arg_id, i);
        assert_eq!(attribute_walker.model_id, ModelId(1));
        assert_eq!(attribute_walker.fields.len(), 2);
    }
    assert_eq!(attributes[0].fields[0].sort_order, Some(SortOrder::Desc));
    assert_eq!(attributes[0].fields[0].length, Some(5));
}

#[test]
fn contains_exactly_fields_by_id_wants_the_same_order() {
    let db = database();
    let attribute = compound_key();
    let walker = PrimaryKeyWalker { model_id: ModelId(1), attribute: &attribute, db: &db };
    assert!(walker.contains_exactly_fields_by_id(&[FieldId(2), FieldId(0)]));
    assert!(!walker.contains_exactly_fields_by_id(&[FieldId(0), FieldId(2)]));
    assert!(!walker.contains_exactly_fields_by_id(&[FieldId(2)]));
    assert!(!walker.contains_exactly_fields_by_id(&[FieldId(2), FieldId(0), FieldId(1)]));
    assert!(!walker.contains_exactly_fields_by_id(&[]));
}

#[test]
fn contains_exactly_fields_compares_model_and_field() {
    let db = database();
    let attribute = compound_key();
    let walker = PrimaryKeyWalker { model_id: ModelId(1), attribute: &attribute, db: &db };
    let own = walker.fields();
    assert!(walker.contains_exactly_fields(&own));
    let reversed = vec![own[1], own[0]];
    assert!(!walker.contains_exactly_fields(&reversed));
    assert!(!walker.contains_exactly_fields(&own[..1]));
    let mut elsewhere = own.clone();
    elsewhere[0].model_id = ModelId(0);
    assert!(!walker.contains_exactly_fields(&elsewhere));
    assert!(own[0].is_same_field(own[0]));
    assert!(!own[0].is_same_field(own[1]));
}

#[test]
fn walker_that_points_outside_the_database_is_not_valid() {
    let db = database();
    let mut attribute = compound_key();
    attribute.source_attribute = AttributeId(2);
    assert!(!PrimaryKeyWalker { model_id: ModelId(1), attribute: &attribute, db: &db }.is_valid());

    let attribute = compound_key();
    assert!(!PrimaryKeyWalker { model_id: ModelId(2), attribute: &attribute, db: &db }.is_valid());
    assert!(!PrimaryKeyWalker { model_id: ModelId(0), attribute: &attribute, db: &db }.is_valid());

    let mut attribute = compound_key();
    attribute.name = Some(StringId(2));
    assert!(!PrimaryKeyWalker { model_id: ModelId(1), attribute: &attribute, db: &db }.is_valid());

    let mut attribute = compound_key();
    attribute.mapped_name = Some(StringId(7));
    assert!(!PrimaryKeyWalker { model_id: ModelId(1), attribute: &attribute, db: &db }.is_valid());

    let mut attribute = compound_key();
    attribute.fields.push(key_field(3));
    assert!(!PrimaryKeyWalker { model_id: ModelId(1), attribute: &attribute, db: &db }.is_valid());
}

#[test]
fn database_hands_out_its_strings() {
    let db = database();
    assert_eq!(db.string(StringId(0)), "clientName");
    assert_eq!(db.string(StringId(1)), "mappedName");
}

#[test]
fn each_accessor_needs_only_what_it_reads() {
    let db = database();

    // The client name points outside the database; nothing else does.
    let mut attribute = compound_key();
    attribute.name = Some(StringId(9));
    let walker = PrimaryKeyWalker { model_id: ModelId(1), attribute: &attribute, db: &db };
    assert!(!walker.is_valid());
    assert_eq!(walker.ast_attribute().name, "id");
    assert_eq!(walker.mapped_name(), Some("mappedName"));
    assert_eq!(walker.model().model_id, ModelId(1));
    assert_eq!(walker.fields().len(), 2);

    // The node points outside the database; the names and fields do not.
    let mut attribute = compound_key();
    attribute.source_attribute = AttributeId(5);
    let walker = PrimaryKeyWalker { model_id: ModelId(1), attribute: &attribute, db: &db };
    assert!(!walker.is_valid());
    assert_eq!(walker.name(), Some("clientName"));
    assert_eq!(walker.fields()[0].field_id, FieldId(2));

    // A field of the key is not in the model; the node and the names are.
    let mut attribute = compound_key();
    attribute.fields.push(key_field(8));
    let walker = PrimaryKeyWalker { model_id: ModelId(1), attribute: &attribute, db: &db };
    assert!(!walker.is_valid());
    assert_eq!(walker.ast_attribute().name, "id");
    assert_eq!(walker.name(), Some("clientName"));
    assert!(walker.model().model_attributes.is_ignored);
    assert_eq!(walker.scalar_field_attributes().len(), 3);
}
