//! Search schemas from a list of field descriptions.
//!
//! Every schema begins with three fields of its own: `_id`, the document's
//! identifier; `_score`, a place for its relevance; and `_timestamp`, the time at
//! which it was indexed.

use std::sync::Arc;

use tantivy::schema::Schema;
use vstd::prelude::*;

use crate::index::fields::{
    fast_numeric, has_room, named, numbers, schema_fields, text_shape, valid_name, FieldMap,
    FieldView, Fields, ShapeView,
};

verus! {

/// The type of a field.
#[derive(Clone, Copy, Debug, PartialEq, Eq, Structural)]
#[non_exhaustive]
pub enum FieldType {
    /// Text, cut into words and indexed.
    Text,
    /// A floating-point number with fast access.
    Number,
    /// A truth value, held as 0 or 1 with fast access.
    Boolean,
}

/// The description of a field.
#[derive(Clone, Debug, PartialEq, Eq)]
pub struct FieldConfig {
    pub name: String,
    pub field_type: FieldType,
    /// Whether the value can be had back from a search.
    pub stored: bool,
    /// Whether the field can be searched.
    pub indexed: bool,
}

impl FieldConfig {
    /// A field that is stored and indexed.
    pub fn new(name: &str, field_type: FieldType) -> (f: Self)
        ensures
            f.name@ == name@,
            f.field_type == field_type,
            f.stored,
            f.indexed,
    {
        FieldConfig { name: name.to_owned(), field_type, stored: true, indexed: true }
    }

    /// The same field, stored or not.
    pub fn with_stored(self, stored: bool) -> (f: Self)
        ensures
            f == (FieldConfig { stored, ..self }),
    {
        FieldConfig { stored, ..self }
    }

    /// The same field, indexed or not.
    pub fn with_indexed(self, indexed: bool) -> (f: Self)
        ensures
            f == (FieldConfig { indexed, ..self }),
    {
        FieldConfig { indexed, ..self }
    }
}

/// The description of a schema.
#[derive(Clone, Debug, PartialEq, Eq)]
pub struct SchemaConfig {
    pub fields: Vec<FieldConfig>,
}

impl SchemaConfig {
    /// No fields.
    pub fn new() -> (c: Self)
        ensures
            c.fields@.len() == 0,
    {
        SchemaConfig { fields: Vec::new() }
    }

    /// The same with one more field.
    pub fn with_field(self, field: FieldConfig) -> (c: Self)
        ensures
            c.fields@ == self.fields@.push(field),
    {
        let mut fields = self.fields;
        fields.push(field);
        SchemaConfig { fields }
    }
}

impl Default for SchemaConfig {
    fn default() -> (c: Self)
        ensures
            c.fields@.len() == 0,
    {
        SchemaConfig::new()
    }
}

/// The fields that every schema begins with.
pub open spec fn meta_fields() -> Seq<FieldView> {
    seq![
        FieldView { name: "_id"@, shape: text_shape(true, true, "raw"@) },
        FieldView { name: "_score"@, shape: ShapeView::Float(fast_numeric(true, false)) },
        FieldView { name: "_timestamp"@, shape: ShapeView::Unsigned(fast_numeric(true, true)) },
    ]
}

/// The field that a description stands for.
pub open spec fn described(f: FieldConfig) -> FieldView {
    FieldView {
        name: f.name@,
        shape: match f.field_type {
            FieldType::Text => text_shape(f.stored, f.indexed, "standard"@),
            FieldType::Number => ShapeView::Float(fast_numeric(f.stored, f.indexed)),
            FieldType::Boolean => ShapeView::Unsigned(fast_numeric(f.stored, f.indexed)),
        },
    }
}

/// The fields of a schema with the first `n` of the described fields.
pub open spec fn described_fields(configs: Seq<FieldConfig>, n: int) -> Seq<FieldView> {
    meta_fields() + Seq::new(n as nat, |i: int| described(configs[i]))
}

/// The described fields make a schema: their names are valid, none is a name of the
/// schema's own fields, and none occurs twice.
pub open spec fn makes_a_schema(configs: Seq<FieldConfig>) -> bool {
    &&& configs.len() + 3 <= u32::MAX
    &&& forall|i: int|
        0 <= i < configs.len() ==> valid_name((#[trigger] configs[i]).name@) && !named(
            meta_fields(),
            configs[i].name@,
        )
    &&& forall|i: int, j: int|
        #![trigger configs[i], configs[j]]
        0 <= i < j < configs.len() ==> configs[i].name@ != configs[j].name@
}

/// Add the fields that every schema begins with.
pub(crate) fn add_meta_fields(fields: &mut Fields)
    requires
        old(fields).wf(),
        old(fields)@.len() == 0,
    ensures
        final(fields).wf(),
        final(fields)@ == meta_fields(),
{
    proof {
        reveal_strlit("_id");
        reveal_strlit("_score");
        reveal_strlit("_timestamp");
        assert("_id"@.len() != "_score"@.len());
        assert("_timestamp"@.len() != "_score"@.len());
        assert("_timestamp"@.len() != "_id"@.len());
    }
    fields.add_text("_id", true, true, "raw");
    fields.add_float("_score", true, false);
    fields.add_unsigned("_timestamp", true, true);
    assert(fields@ =~= meta_fields());
}

/// Builds schemas from descriptions.
pub struct DynamicSchemaBuilder;

impl DynamicSchemaBuilder {
    /// The schema of the described fields, and the numbers of all its fields.
    pub fn build(config: &SchemaConfig) -> (r: (Arc<Schema>, FieldMap))
        requires
            makes_a_schema(config.fields@),
        ensures
            schema_fields(*r.0) == described_fields(
                config.fields@,
                config.fields@.len() as int,
            ),
            numbers(
                r.1@,
                described_fields(config.fields@, config.fields@.len() as int),
            ),
    {
        let mut fields = Fields::new();
        add_meta_fields(&mut fields);
        assert(fields@ =~= described_fields(config.fields@, 0));
        let mut i: usize = 0;
        while i < config.fields.len()
            invariant
                i <= config.fields@.len(),
                makes_a_schema(config.fields@),
                fields.wf(),
                fields@ == described_fields(config.fields@, i as int),
            decreases config.fields@.len() - i,
        {
            let fc = &config.fields[i];
            proof {
                lemma_room(config.fields@, i as int);
            }
            match fc.field_type {
                FieldType::Text => {
                    fields.add_text(fc.name.as_str(), fc.stored, fc.indexed, "standard");
                },
                FieldType::Number => {
                    fields.add_float(fc.name.as_str(), fc.stored, fc.indexed);
                },
                FieldType::Boolean => {
                    fields.add_unsigned(fc.name.as_str(), fc.stored, fc.indexed);
                },
            }
            i = i + 1;
            assert(fields@ =~= described_fields(config.fields@, i as int));
        }
        let (schema, map) = fields.build();
        (Arc::new(schema), map)
    }

    /// The schema of documents without a description: one text field, `_body`, that
    /// holds all their text.
    pub fn build_default() -> (r: (Arc<Schema>, FieldMap))
        ensures
            schema_fields(*r.0) == meta_fields().push(body_field()),
            numbers(r.1@, meta_fields().push(body_field())),
    {
        let config = SchemaConfig::new().with_field(FieldConfig::new("_body", FieldType::Text));
        proof {
            lemma_body_is_free();
            assert(config.fields@.len() == 1);
            assert(described_fields(config.fields@, 1) =~= meta_fields().push(body_field()));
        }
        Self::build(&config)
    }
}

/// The field that holds all the text of a document.
pub open spec fn body_field() -> FieldView {
    FieldView { name: "_body"@, shape: text_shape(true, true, "standard"@) }
}

pub(crate) proof fn lemma_body_is_free()
    ensures
        valid_name("_body"@),
        !named(meta_fields(), "_body"@),
{
    reveal_strlit("_id");
    reveal_strlit("_score");
    reveal_strlit("_timestamp");
    reveal_strlit("_body");
    assert forall|i: int| 0 <= i < meta_fields().len() implies (#[trigger] meta_fields()[i]).name
        != "_body"@ by {
        assert(meta_fields()[i].name.len() != "_body"@.len());
    }
}

proof fn lemma_room(configs: Seq<FieldConfig>, n: int)
    requires
        makes_a_schema(configs),
        0 <= n < configs.len(),
    ensures
        has_room(described_fields(configs, n), configs[n].name@),
{
    let fields = described_fields(configs, n);
    let name = configs[n].name@;
    assert forall|k: int| 0 <= k < fields.len() implies (#[trigger] fields[k]).name != name by {
        if k < 3 {
            assert(fields[k] == meta_fields()[k]);
        } else {
            assert(configs[k - 3].name@ != configs[n].name@);
        }
    }
}

/// Every schema has the fields of its own at the same places, and the described
/// fields follow in their order.
pub proof fn described_fields_have_their_places(
    configs: Seq<FieldConfig>,
    map: Map<Seq<char>, u32>,
)
    requires
        makes_a_schema(configs),
        numbers(map, described_fields(configs, configs.len() as int)),
    ensures
        map.contains_key("_id"@) && map["_id"@] == 0,
        map.contains_key("_score"@) && map["_score"@] == 1,
        map.contains_key("_timestamp"@) && map["_timestamp"@] == 2,
        forall|i: int|
            0 <= i < configs.len() ==> map.contains_key((#[trigger] configs[i]).name@)
                && map[configs[i].name@] == i + 3,
{
    let fields = described_fields(configs, configs.len() as int);
    assert(fields[0].name == "_id"@);
    assert(fields[1].name == "_score"@);
    assert(fields[2].name == "_timestamp"@);
    assert forall|i: int| 0 <= i < configs.len() implies map.contains_key(
        (#[trigger] configs[i]).name@,
    ) && map[configs[i].name@] == i + 3 by {
        assert(fields[i + 3].name == configs[i].name@);
    }
}

// ---------------------------------------------------------------------------
// Laws
// ---------------------------------------------------------------------------

/// Every schema begins with the identifier, one exact term; the score, which is not searched;
/// and the time.  The whole text is a text of words.
pub proof fn schemas_begin_with_their_own_fields()
    ensures
        meta_fields().len() == 3,
        meta_fields()[0].name == "_id"@,
        meta_fields()[0].shape == text_shape(true, true, "raw"@),
        meta_fields()[1].name == "_score"@,
        meta_fields()[1].shape == ShapeView::Float(fast_numeric(true, false)),
        meta_fields()[2].name == "_timestamp"@,
        meta_fields()[2].shape == ShapeView::Unsigned(fast_numeric(true, true)),
        body_field().name == "_body"@,
        body_field().shape == text_shape(true, true, "standard"@),
{
}

/// A described field has its name, is of its type, and is stored and indexed as described;
/// the described fields stand behind the schema's own, each at its place.
pub proof fn fields_are_as_described(configs: Seq<FieldConfig>, n: int, i: int)
    requires
        0 <= i < n <= configs.len(),
    ensures
        described_fields(configs, n).len() == n + 3,
        described_fields(configs, n).take(3) == meta_fields(),
        ({
            let field = described_fields(configs, n)[i + 3];
            let config = configs[i];
            &&& field.name == config.name@
            &&& config.field_type == FieldType::Text ==> field.shape == text_shape(
                config.stored,
                config.indexed,
                "standard"@,
            )
            &&& config.field_type == FieldType::Number ==> field.shape == ShapeView::Float(
                fast_numeric(config.stored, config.indexed),
            )
            &&& config.field_type == FieldType::Boolean ==> field.shape == ShapeView::Unsigned(
                fast_numeric(config.stored, config.indexed),
            )
        }),
{
    assert(described_fields(configs, n).take(3) =~= meta_fields());
}

/// Descriptions make a schema exactly where no two fields, the schema's own among them, have
/// one name, and every name can stand in a schema.
pub proof fn schemas_have_distinct_names(configs: Seq<FieldConfig>, i: int, j: int)
    requires
        makes_a_schema(configs),
        0 <= i < j < configs.len() + 3,
    ensures
        ({
            let fields = described_fields(configs, configs.len() as int);
            &&& fields[i].name != fields[j].name
            &&& valid_name(fields[j].name)
        }),
{
    reveal_strlit("_id");
    reveal_strlit("_score");
    reveal_strlit("_timestamp");
    let own = meta_fields();
    let fields = described_fields(configs, configs.len() as int);
    assert(own[0].name.len() == 3 && own[1].name.len() == 6 && own[2].name.len() == 10);
    assert(own[1].name[0] == '_' && own[2].name[0] == '_');
    if j >= 3 {
        assert(fields[j].name == configs[j - 3].name@);
        if i < 3 {
            assert(fields[i] == own[i]);
            if fields[i].name == fields[j].name {
                assert(named(own, configs[j - 3].name@));
            }
        } else {
            assert(fields[i].name == configs[i - 3].name@);
        }
    } else {
        assert(fields[i] == own[i] && fields[j] == own[j]);
    }
}

/// Descriptions with different names, all of which can stand in a schema and are not the
/// schema's own, make one, while there are numbers for all fields.
pub proof fn descriptions_of_free_names_make_a_schema(configs: Seq<FieldConfig>)
    requires
        configs.len() <= u32::MAX - 3,
        forall|i: int|
            0 <= i < configs.len() ==> (#[trigger] configs[i]).name@.len() > 0 && configs[i].name@[0]
                != '-' && configs[i].name@ != "_id"@ && configs[i].name@ != "_score"@
                && configs[i].name@ != "_timestamp"@,
        forall|i: int, j: int|
            #![trigger configs[i], configs[j]]
            0 <= i < j < configs.len() ==> configs[i].name@ != configs[j].name@,
    ensures
        makes_a_schema(configs),
{
    let own = meta_fields();
    assert forall|i: int| 0 <= i < configs.len() implies valid_name((#[trigger] configs[i]).name@)
        && !named(own, configs[i].name@) by {
        if named(own, configs[i].name@) {
            let k = choose|k: int|
                0 <= k < own.len() && (#[trigger] own[k]).name == configs[i].name@;
            assert(k == 0 || k == 1 || k == 2);
        }
    }
}

} // verus!
