//! The primary key of a model, as a walker over the schema database.
//!
//! A walker is a cheap handle: the place of an item in the database together
//! with the database itself. Its methods read what the database holds about
//! the item.

use vstd::prelude::*;

verus! {

/// The place of a model in the schema.
#[derive(Clone, Copy, Debug, PartialEq, Eq, Structural)]
pub struct ModelId(pub u32);

/// The place of a field in its model.
#[derive(Clone, Copy, Debug, PartialEq, Eq, Structural)]
pub struct FieldId(pub u32);

/// The place of an attribute in the schema.
#[derive(Clone, Copy, Debug, PartialEq, Eq, Structural)]
pub struct AttributeId(pub u32);

/// The place of a string in the database's table of strings.
#[derive(Clone, Copy, Debug, PartialEq, Eq, Structural)]
pub struct StringId(pub usize);

/// An attribute as the schema has it.
#[derive(Debug)]
pub struct Attribute {
    pub name: String,
}

/// The direction in which a key field is sorted.
#[derive(Clone, Copy, Debug, PartialEq, Eq, Structural)]
pub enum SortOrder {
    Asc,
    Desc,
}

/// A field of a key, with the arguments it is given there.
#[derive(Debug)]
pub struct FieldWithArgs {
    pub field_id: FieldId,
    pub sort_order: Option<SortOrder>,
    pub length: Option<u32>,
}

/// An `@id` or `@@id` attribute.
#[derive(Debug)]
pub struct IdAttribute {
    pub source_attribute: AttributeId,
    pub source_field: Option<FieldId>,
    pub fields: Vec<FieldWithArgs>,
    pub name: Option<StringId>,
    pub mapped_name: Option<StringId>,
}

/// What the database holds about a model.
#[derive(Debug)]
pub struct ModelAttributes {
    pub primary_key: Option<IdAttribute>,
    pub is_ignored: bool,
}

/// What the database holds about a scalar field.
#[derive(Debug)]
pub struct ScalarFieldType {
    pub is_ignored: bool,
    pub mapped_name: Option<StringId>,
}

/// What the database holds about the types of the schema: the models by their
/// place, and the scalar fields by the place of their model and their own.
#[derive(Debug)]
pub struct Types {
    pub model_attributes: Vec<ModelAttributes>,
    pub scalar_fields: Vec<Vec<ScalarFieldType>>,
}

/// The schema database.
#[derive(Debug)]
pub struct ParserDatabase {
    pub ast: Vec<Attribute>,
    pub interner: Vec<String>,
    pub types: Types,
}

impl ParserDatabase {
    /// Whether the database has a string at that place.
    pub open spec fn has_string(&self, id: StringId) -> bool {
        id.0 < self.interner@.len()
    }

    /// Whether the database has a model at that place.
    pub open spec fn has_model(&self, id: ModelId) -> bool {
        id.0 < self.types.model_attributes@.len()
    }

    /// Whether the database has a scalar field at that place.
    pub open spec fn has_scalar_field(&self, model_id: ModelId, field_id: FieldId) -> bool {
        model_id.0 < self.types.scalar_fields@.len() && field_id.0
            < self.types.scalar_fields@[model_id.0 as int]@.len()
    }

    /// The string at a place.
    pub fn string(&self, id: StringId) -> (res: &str)
        requires
            self.has_string(id),
        ensures
            res@ == self.interner@[id.0 as int]@,
    {
        self.interner[id.0].as_str()
    }
}

/// A model of the schema.
#[derive(Clone, Copy)]
pub struct ModelWalker<'db> {
    pub model_id: ModelId,
    pub db: &'db ParserDatabase,
    pub model_attributes: &'db ModelAttributes,
}

/// A scalar field of a model.
#[derive(Clone, Copy)]
pub struct ScalarFieldWalker<'db> {
    pub model_id: ModelId,
    pub field_id: FieldId,
    pub db: &'db ParserDatabase,
    pub scalar_field: &'db ScalarFieldType,
}

impl<'db> ScalarFieldWalker<'db> {
    /// Two walkers are on the same field where model and field agree.
    pub open spec fn same_field(self, other: ScalarFieldWalker<'db>) -> bool {
        self.model_id == other.model_id && self.field_id == other.field_id
    }

    /// Whether two walkers are on the same field.
    pub fn is_same_field(self, other: ScalarFieldWalker<'db>) -> (res: bool)
        ensures
            res == self.same_field(other),
    {
        self.model_id.0 == other.model_id.0 && self.field_id.0 == other.field_id.0
    }
}

/// A field of a key, with its arguments: one position in the key's field list.
#[derive(Clone, Copy)]
pub struct ScalarFieldAttributeWalker<'db> {
    pub model_id: ModelId,
    pub fields: &'db Vec<FieldWithArgs>,
    pub db: &'db ParserDatabase,
    pub field_arg_id: usize,
}

/// An `@id` or `@@id` attribute in the schema.
#[derive(Clone, Copy)]
pub struct PrimaryKeyWalker<'db> {
    pub model_id: ModelId,
    pub attribute: &'db IdAttribute,
    pub db: &'db ParserDatabase,
}

/// The places of the fields of a key, in key order.
pub open spec fn field_ids(fields: Seq<FieldWithArgs>) -> Seq<FieldId> {
    fields.map_values(|f: FieldWithArgs| f.field_id)
}

impl<'db> PrimaryKeyWalker<'db> {
    /// Every field of the key is a scalar field of the model in the database.
    pub open spec fn has_its_fields(self) -> bool {
        forall|i: int|
            0 <= i < self.attribute.fields@.len() ==> self.db.has_scalar_field(
                self.model_id,
                (#[trigger] self.attribute.fields@[i]).field_id,
            )
    }

    /// Everything the attribute points to is in the database: its own node,
    /// its model, its names and its fields.
    pub open spec fn wf(self) -> bool {
        &&& self.attribute.source_attribute.0 < self.db.ast@.len()
        &&& self.db.has_model(self.model_id)
        &&& self.attribute.name matches Some(id) ==> self.db.has_string(id)
        &&& self.attribute.mapped_name matches Some(id) ==> self.db.has_string(id)
        &&& self.has_its_fields()
    }

    /// Whether everything the attribute points to is in the database.
    pub fn is_valid(self) -> (res: bool)
        ensures
            res == self.wf(),
    {
        if self.attribute.source_attribute.0 as usize >= self.db.ast.len() {
            return false;
        }
        if self.model_id.0 as usize >= self.db.types.model_attributes.len() {
            return false;
        }
        match self.attribute.name {
            Some(id) => {
                if id.0 >= self.db.interner.len() {
                    return false;
                }
            },
            None => {},
        }
        match self.attribute.mapped_name {
            Some(id) => {
                if id.0 >= self.db.interner.len() {
                    return false;
                }
            },
            None => {},
        }
        let mut i: usize = 0;
        while i < self.attribute.fields.len()
            invariant
                i <= self.attribute.fields@.len(),
                forall|j: int|
                    0 <= j < i ==> self.db.has_scalar_field(
                        self.model_id,
                        (#[trigger] self.attribute.fields@[j]).field_id,
                    ),
            decreases self.attribute.fields@.len() - i,
        {
            let field_id = self.attribute.fields[i].field_id;
            if self.model_id.0 as usize >= self.db.types.scalar_fields.len() {
                assert(!self.db.has_scalar_field(self.model_id, self.attribute.fields@[i as int].field_id));
                return false;
            }
            if field_id.0 as usize >= self.db.types.scalar_fields[self.model_id.0 as usize].len() {
                assert(!self.db.has_scalar_field(self.model_id, self.attribute.fields@[i as int].field_id));
                return false;
            }
            i += 1;
        }
        true
    }

    /// The `@(@)id` node in the schema.
    pub fn ast_attribute(self) -> (res: &'db Attribute)
        requires
            self.attribute.source_attribute.0 < self.db.ast@.len(),
        ensures
            *res == self.db.ast@[self.attribute.source_attribute.0 as int],
    {
        &self.db.ast[self.attribute.source_attribute.0 as usize]
    }

    /// The name that the key is mapped to, where the attribute gives one:
    /// `theName` in `@@id([a, b], map: "theName")`.
    pub fn mapped_name(self) -> (res: Option<&'db str>)
        requires
            self.attribute.mapped_name matches Some(id) ==> self.db.has_string(id),
        ensures
            match self.attribute.mapped_name {
                Some(id) => res matches Some(name) && name@ == self.db.interner@[id.0 as int]@,
                None => res is None,
            },
    {
        match self.attribute.mapped_name {
            Some(id) => Some(self.db.string(id)),
            None => None,
        }
    }

    /// Whether this is an `@id` on one field, rather than an `@@id` on the
    /// model.
    pub fn is_defined_on_field(self) -> (res: bool)
        ensures
            res == self.attribute.source_field.is_some(),
    {
        self.attribute.source_field.is_some()
    }

    /// The model that the key is defined on.
    pub fn model(self) -> (res: ModelWalker<'db>)
        requires
            self.db.has_model(self.model_id),
        ensures
            res.model_id == self.model_id,
            res.db == self.db,
            *res.model_attributes == self.db.types.model_attributes@[self.model_id.0 as int],
    {
        ModelWalker {
            db: self.db,
            model_attributes: &self.db.types.model_attributes[self.model_id.0 as usize],
            model_id: self.model_id,
        }
    }

    /// The name that clients know the key by, where the attribute gives one:
    /// `theName` in `@@id([a, b], name: "theName")`.
    pub fn name(self) -> (res: Option<&'db str>)
        requires
            self.attribute.name matches Some(id) ==> self.db.has_string(id),
        ensures
            match self.attribute.name {
                Some(id) => res matches Some(name) && name@ == self.db.interner@[id.0 as int]@,
                None => res is None,
            },
    {
        match self.attribute.name {
            Some(id) => Some(self.db.string(id)),
            None => None,
        }
    }

    /// The scalar fields that the key constrains, in key order.
    pub fn fields(self) -> (res: Vec<ScalarFieldWalker<'db>>)
        requires
            self.has_its_fields(),
        ensures
            res@.len() == self.attribute.fields@.len(),
            forall|i: int|
                0 <= i < res@.len() ==> {
                    let walker = #[trigger] res@[i];
                    &&& walker.model_id == self.model_id
                    &&& walker.field_id == self.attribute.fields@[i].field_id
                    &&& walker.db == self.db
                    &&& *walker.scalar_field == self.db.types.scalar_fields@[self.model_id.0 as int]@[walker.field_id.0 as int]
                },
    {
        let mut res: Vec<ScalarFieldWalker<'db>> = Vec::new();
        let mut i: usize = 0;
        while i < self.attribute.fields.len()
            invariant
                self.has_its_fields(),
                i <= self.attribute.fields@.len(),
                res@.len() == i,
                forall|j: int|
                    0 <= j < i ==> {
                        let walker = #[trigger] res@[j];
                        &&& walker.model_id == self.model_id
                        &&& walker.field_id == self.attribute.fields@[j].field_id
                        &&& walker.db == self.db
                        &&& *walker.scalar_field == self.db.types.scalar_fields@[self.model_id.0 as int]@[walker.field_id.0 as int]
                    },
            decreases self.attribute.fields@.len() - i,
        {
            let field_id = self.attribute.fields[i].field_id;
            assert(self.db.has_scalar_field(self.model_id, self.attribute.fields@[i as int].field_id));
            res.push(
                ScalarFieldWalker {
                    model_id: self.model_id,
                    field_id,
                    db: self.db,
                    scalar_field: &self.db.types.scalar_fields[self.model_id.0 as usize][field_id.0 as usize],
                },
            );
            i += 1;
        }
        res
    }

    /// The positions of the key's field list, each with the arguments of its
    /// field, in key order.
    pub fn scalar_field_attributes(self) -> (res: Vec<ScalarFieldAttributeWalker<'db>>)
        ensures
            res@.len() == self.attribute.fields@.len(),
            forall|i: int|
                0 <= i < res@.len() ==> {
                    let walker = #[trigger] res@[i];
                    &&& walker.model_id == self.model_id
                    &&& walker.fields@ == self.attribute.fields@
                    &&& walker.db == self.db
                    &&& walker.field_arg_id == i
                },
    {
        let mut res: Vec<ScalarFieldAttributeWalker<'db>> = Vec::new();
        let mut field_arg_id: usize = 0;
        while field_arg_id < self.attribute.fields.len()
            invariant
                field_arg_id <= self.attribute.fields@.len(),
                res@.len() == field_arg_id,
                forall|j: int|
                    0 <= j < field_arg_id ==> {
                        let walker = #[trigger] res@[j];
                        &&& walker.model_id == self.model_id
                        &&& walker.fields@ == self.attribute.fields@
                        &&& walker.db == self.db
                        &&& walker.field_arg_id == j
                    },
            decreases self.attribute.fields@.len() - field_arg_id,
        {
            res.push(
                ScalarFieldAttributeWalker {
                    model_id: self.model_id,
                    fields: &self.attribute.fields,
                    db: self.db,
                    field_arg_id,
                },
            );
            field_arg_id += 1;
        }
        res
    }

    /// Whether the key constrains exactly the fields at these places, in this
    /// order.
    pub fn contains_exactly_fields_by_id(self, fields: &[FieldId]) -> (res: bool)
        ensures
            res == (field_ids(self.attribute.fields@) == fields@),
    {
        let ghost own = field_ids(self.attribute.fields@);
        if self.attribute.fields.len() != fields.len() {
            assert(own.len() != fields@.len());
            return false;
        }
        let mut i: usize = 0;
        while i < fields.len()
            invariant
                i <= fields@.len(),
                own == field_ids(self.attribute.fields@),
                own.len() == fields@.len(),
                forall|j: int| 0 <= j < i ==> own[j] == fields@[j],
            decreases fields@.len() - i,
        {
            if self.attribute.fields[i].field_id.0 != fields[i].0 {
                assert(own[i as int] != fields@[i as int]);
                return false;
            }
            i += 1;
        }
        assert(own =~= fields@);
        true
    }

    /// Whether the key constrains exactly these fields, in this order.
    pub fn contains_exactly_fields(self, fields: &[ScalarFieldWalker<'db>]) -> (res: bool)
        ensures
            res == (self.attribute.fields@.len() == fields@.len() && forall|i: int|
                0 <= i < fields@.len() ==> self.model_id == (#[trigger] fields@[i]).model_id
                    && self.attribute.fields@[i].field_id == fields@[i].field_id),
    {
        if self.attribute.fields.len() != fields.len() {
            return false;
        }
        let mut i: usize = 0;
        while i < fields.len()
            invariant
                i <= fields@.len(),
                self.attribute.fields@.len() == fields@.len(),
                forall|j: int|
                    0 <= j < i ==> self.model_id == (#[trigger] fields@[j]).model_id
                        && self.attribute.fields@[j].field_id == fields@[j].field_id,
            decreases fields@.len() - i,
        {
            let own = &self.attribute.fields[i];
            let other = &fields[i];
            if self.model_id.0 != other.model_id.0 || own.field_id.0 != other.field_id.0 {
                assert(!(self.model_id == fields@[i as int].model_id && self.attribute.fields@[i as int].field_id
                    == fields@[i as int].field_id));
                return false;
            }
            i += 1;
        }
        true
    }
}

} // verus!
