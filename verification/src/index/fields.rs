//! The fields of a search schema.
//!
//! A schema is a list of fields.  Each has a name, which no other field of the
//! schema has, and a number: its position in the list.

use tantivy::schema::{
    IndexRecordOption, NumericOptions, Schema, SchemaBuilder, TextFieldIndexing, TextOptions,
};
use vstd::prelude::*;

use crate::table::Table;

verus! {

// ---------------------------------------------------------------------------
// What a field holds
// ---------------------------------------------------------------------------

/// What the index keeps of a term: the documents it occurs in, how often, and where.
#[derive(Clone, Copy, Debug, PartialEq, Eq, Structural)]
pub enum Record {
    Basic,
    WithFreqs,
    WithFreqsAndPositions,
}

/// How a text field is indexed.
pub struct IndexingView {
    pub tokenizer: Seq<char>,
    pub record: Record,
    pub fieldnorms: bool,
}

/// The options of a text field.
pub struct TextView {
    pub stored: bool,
    pub indexing: Option<IndexingView>,
    pub fast: bool,
    pub coerce: bool,
}

/// The options of a numeric field.
pub struct NumericView {
    pub stored: bool,
    pub indexed: bool,
    pub fast: bool,
    pub fieldnorms: bool,
    pub coerce: bool,
}

/// The type of a field with its options.
pub enum ShapeView {
    Text(TextView),
    Float(NumericView),
    Unsigned(NumericView),
}

/// A field.
pub struct FieldView {
    pub name: Seq<char>,
    pub shape: ShapeView,
}

/// Some field of the list has the name.
pub open spec fn named(fields: Seq<FieldView>, name: Seq<char>) -> bool {
    exists|i: int| 0 <= i < fields.len() && (#[trigger] fields[i]).name == name
}

/// The name can stand in a schema: it is not empty and does not begin with a hyphen.
pub open spec fn valid_name(name: Seq<char>) -> bool {
    name.len() > 0 && name[0] != '-'
}

/// One more field can be added.
pub open spec fn has_room(fields: Seq<FieldView>, name: Seq<char>) -> bool {
    valid_name(name) && !named(fields, name) && fields.len() <= u32::MAX
}

// ---------------------------------------------------------------------------
// Schemas
// ---------------------------------------------------------------------------

/// `tantivy::schema::TextFieldIndexing`: how a text field is indexed.
#[verifier::external_type_specification]
#[verifier::external_body]
pub struct ExTextFieldIndexing(TextFieldIndexing);

/// `tantivy::schema::TextOptions`: the options of a text field.
#[verifier::external_type_specification]
#[verifier::external_body]
pub struct ExTextOptions(TextOptions);

/// `tantivy::schema::NumericOptions`: the options of a numeric field.
#[verifier::external_type_specification]
#[verifier::external_body]
pub struct ExNumericOptions(NumericOptions);

/// `tantivy::schema::SchemaBuilder`: a schema to which fields are added.
#[verifier::external_type_specification]
#[verifier::external_body]
pub struct ExSchemaBuilder(SchemaBuilder);

/// `tantivy::schema::Schema`: a finished schema.
#[verifier::external_type_specification]
#[verifier::external_body]
pub struct ExSchema(Schema);

/// What a `TextFieldIndexing` holds.
pub uninterp spec fn indexing_of(indexing: TextFieldIndexing) -> IndexingView;

/// What a `TextOptions` holds.
pub uninterp spec fn text_options_of(options: TextOptions) -> TextView;

/// What a `NumericOptions` holds.
pub uninterp spec fn numeric_options_of(options: NumericOptions) -> NumericView;

/// The fields of a `SchemaBuilder`.
pub uninterp spec fn fields_of(builder: SchemaBuilder) -> Seq<FieldView>;

/// The fields of a `Schema`.
pub uninterp spec fn schema_fields(schema: Schema) -> Seq<FieldView>;

/// `tantivy::schema::TextFieldIndexing::default`: the tokenizer `default`, the
/// documents only, and field norms.
#[verifier::external_body]
fn indexing_default() -> (i: TextFieldIndexing)
    ensures
        indexing_of(i) == (IndexingView {
            tokenizer: "default"@,
            record: Record::Basic,
            fieldnorms: true,
        }),
{
    TextFieldIndexing::default()
}

/// `tantivy::schema::TextFieldIndexing::set_tokenizer`: the same with this tokenizer.
pub assume_specification[ TextFieldIndexing::set_tokenizer ](
    indexing: TextFieldIndexing,
    tokenizer_name: &str,
) -> (r: TextFieldIndexing)
    ensures
        indexing_of(r) == (IndexingView { tokenizer: tokenizer_name@, ..indexing_of(indexing) }),
;

/// `tantivy::schema::TextFieldIndexing::set_index_option`: the same with this record.
#[verifier::external_body]
fn set_index_option(indexing: TextFieldIndexing, record: Record) -> (r: TextFieldIndexing)
    ensures
        indexing_of(r) == (IndexingView { record, ..indexing_of(indexing) }),
{
    indexing.set_index_option(
        match record {
            Record::Basic => IndexRecordOption::Basic,
            Record::WithFreqs => IndexRecordOption::WithFreqs,
            Record::WithFreqsAndPositions => IndexRecordOption::WithFreqsAndPositions,
        },
    )
}

/// `tantivy::schema::TextOptions::default`: neither stored nor indexed nor fast.
#[verifier::external_body]
fn text_options_default() -> (o: TextOptions)
    ensures
        text_options_of(o) == (TextView {
            stored: false,
            indexing: None,
            fast: false,
            coerce: false,
        }),
{
    TextOptions::default()
}

/// `tantivy::schema::TextOptions::set_stored`: the same, stored.
pub assume_specification[ TextOptions::set_stored ](options: TextOptions) -> (r: TextOptions)
    ensures
        text_options_of(r) == (TextView { stored: true, ..text_options_of(options) }),
;

/// `tantivy::schema::TextOptions::set_indexing_options`: the same, indexed so.
pub assume_specification[ TextOptions::set_indexing_options ](
    options: TextOptions,
    indexing: TextFieldIndexing,
) -> (r: TextOptions)
    ensures
        text_options_of(r) == (TextView {
            indexing: Some(indexing_of(indexing)),
            ..text_options_of(options)
        }),
;

/// `tantivy::schema::NumericOptions::default`: neither stored nor indexed nor fast.
#[verifier::external_body]
fn numeric_options_default() -> (o: NumericOptions)
    ensures
        numeric_options_of(o) == (NumericView {
            stored: false,
            indexed: false,
            fast: false,
            fieldnorms: false,
            coerce: false,
        }),
{
    NumericOptions::default()
}

/// `tantivy::schema::NumericOptions::set_stored`: the same, stored.
pub assume_specification[ NumericOptions::set_stored ](options: NumericOptions) -> (r:
    NumericOptions)
    ensures
        numeric_options_of(r) == (NumericView { stored: true, ..numeric_options_of(options) }),
;

/// `tantivy::schema::NumericOptions::set_indexed`: the same, indexed.
pub assume_specification[ NumericOptions::set_indexed ](options: NumericOptions) -> (r:
    NumericOptions)
    ensures
        numeric_options_of(r) == (NumericView { indexed: true, ..numeric_options_of(options) }),
;

/// `tantivy::schema::NumericOptions::set_fast`: the same, with fast access.
pub assume_specification[ NumericOptions::set_fast ](options: NumericOptions) -> (r:
    NumericOptions)
    ensures
        numeric_options_of(r) == (NumericView { fast: true, ..numeric_options_of(options) }),
;

/// `tantivy::schema::SchemaBuilder::new`: no fields.
#[verifier::external_body]
fn builder_new() -> (b: SchemaBuilder)
    ensures
        fields_of(b).len() == 0,
{
    SchemaBuilder::new()
}

/// `tantivy::schema::SchemaBuilder::add_text_field`: adds a text field at the end and
/// hands back its number.  It panics on a name that is taken or not valid.
#[verifier::external_body]
fn add_text_field(builder: &mut SchemaBuilder, name: &str, options: TextOptions) -> (field: u32)
    requires
        has_room(fields_of(*old(builder)), name@),
    ensures
        field == fields_of(*old(builder)).len(),
        fields_of(*final(builder)) == fields_of(*old(builder)).push(
            (FieldView { name: name@, shape: ShapeView::Text(text_options_of(options)) }),
        ),
{
    builder.add_text_field(name, options).field_id()
}

/// `tantivy::schema::SchemaBuilder::add_f64_field`: adds a field of floating-point
/// numbers, in the same way.
#[verifier::external_body]
fn add_float_field(builder: &mut SchemaBuilder, name: &str, options: NumericOptions) -> (field: u32)
    requires
        has_room(fields_of(*old(builder)), name@),
    ensures
        field == fields_of(*old(builder)).len(),
        fields_of(*final(builder)) == fields_of(*old(builder)).push(
            (FieldView { name: name@, shape: ShapeView::Float(numeric_options_of(options)) }),
        ),
{
    builder.add_f64_field(name, options).field_id()
}

/// `tantivy::schema::SchemaBuilder::add_u64_field`: adds a field of unsigned numbers,
/// in the same way.
#[verifier::external_body]
fn add_unsigned_field(builder: &mut SchemaBuilder, name: &str, options: NumericOptions) -> (field:
    u32)
    requires
        has_room(fields_of(*old(builder)), name@),
    ensures
        field == fields_of(*old(builder)).len(),
        fields_of(*final(builder)) == fields_of(*old(builder)).push(
            (FieldView { name: name@, shape: ShapeView::Unsigned(numeric_options_of(options)) }),
        ),
{
    builder.add_u64_field(name, options).field_id()
}

/// `tantivy::schema::SchemaBuilder::build`: a schema of the same fields.
pub assume_specification[ SchemaBuilder::build ](builder: SchemaBuilder) -> (schema: Schema)
    ensures
        schema_fields(schema) == fields_of(builder),
;

/// `tantivy::schema::Schema::clone`: a schema of the same fields.
pub assume_specification[ <Schema as Clone>::clone ](schema: &Schema) -> (r: Schema)
    ensures
        schema_fields(r) == schema_fields(*schema),
;

// ---------------------------------------------------------------------------
// Options
// ---------------------------------------------------------------------------

/// A text field that is stored, indexed, both or neither.
pub open spec fn text_shape(stored: bool, indexed: bool, tokenizer: Seq<char>) -> ShapeView {
    ShapeView::Text(
        TextView {
            stored,
            indexing: if indexed {
                Some(
                    IndexingView {
                        tokenizer,
                        record: Record::WithFreqsAndPositions,
                        fieldnorms: true,
                    },
                )
            } else {
                None
            },
            fast: false,
            coerce: false,
        },
    )
}

/// The options of a numeric field with fast access.
pub open spec fn fast_numeric(stored: bool, indexed: bool) -> NumericView {
    NumericView { stored, indexed, fast: true, fieldnorms: false, coerce: false }
}

fn text_options(stored: bool, indexed: bool, tokenizer: &str) -> (o: TextOptions)
    ensures
        ShapeView::Text(text_options_of(o)) == text_shape(stored, indexed, tokenizer@),
{
    let mut options = text_options_default();
    if stored {
        options = options.set_stored();
    }
    if indexed {
        options =
        options.set_indexing_options(
            set_index_option(
                indexing_default().set_tokenizer(tokenizer),
                Record::WithFreqsAndPositions,
            ),
        );
    }
    options
}

fn numeric_options(stored: bool, indexed: bool) -> (o: NumericOptions)
    ensures
        numeric_options_of(o) == fast_numeric(stored, indexed),
{
    let mut options = numeric_options_default().set_fast();
    if stored {
        options = options.set_stored();
    }
    if indexed {
        options = options.set_indexed();
    }
    options
}

// ---------------------------------------------------------------------------
// Schemas with the numbers of their fields
// ---------------------------------------------------------------------------

/// The number of each field, by name.
pub type FieldMap = Table<String, u32>;

/// The map holds the number of each field of the list, and of nothing else.
pub open spec fn numbers(map: Map<Seq<char>, u32>, fields: Seq<FieldView>) -> bool {
    &&& forall|i: int|
        0 <= i < fields.len() ==> map.contains_key((#[trigger] fields[i]).name)
            && map[fields[i].name] == i
    &&& forall|name: Seq<char>| #[trigger] map.contains_key(name) ==> named(fields, name)
}

/// A schema in the making.
pub struct Fields {
    builder: SchemaBuilder,
    map: FieldMap,
}

impl View for Fields {
    type V = Seq<FieldView>;

    closed spec fn view(&self) -> Seq<FieldView> {
        fields_of(self.builder)
    }
}

impl Fields {
    /// The map agrees with the fields.
    pub closed spec fn wf(&self) -> bool {
        numbers(self.map@, fields_of(self.builder))
    }

    /// No fields.
    pub fn new() -> (f: Fields)
        ensures
            f.wf(),
            f@ == Seq::<FieldView>::empty(),
    {
        let f = Fields { builder: builder_new(), map: Table::new() };
        assert(fields_of(f.builder) =~= Seq::<FieldView>::empty());
        f
    }

    /// Add a text field.
    pub fn add_text(&mut self, name: &str, stored: bool, indexed: bool, tokenizer: &str)
        requires
            old(self).wf(),
            has_room(old(self)@, name@),
        ensures
            final(self).wf(),
            final(self)@ == old(self)@.push(
                (FieldView { name: name@, shape: text_shape(stored, indexed, tokenizer@) }),
            ),
    {
        let ghost before = self@;
        let options = text_options(stored, indexed, tokenizer);
        let number = add_text_field(&mut self.builder, name, options);
        self.map.insert(name.to_owned(), number);
        proof {
            lemma_numbers_push(before, self@.last(), old(self).map@, self.map@);
        }
    }

    /// Add a field of floating-point numbers.
    pub fn add_float(&mut self, name: &str, stored: bool, indexed: bool)
        requires
            old(self).wf(),
            has_room(old(self)@, name@),
        ensures
            final(self).wf(),
            final(self)@ == old(self)@.push(
                (FieldView { name: name@, shape: ShapeView::Float(fast_numeric(stored, indexed)) }),
            ),
    {
        let ghost before = self@;
        let number = add_float_field(&mut self.builder, name, numeric_options(stored, indexed));
        self.map.insert(name.to_owned(), number);
        proof {
            lemma_numbers_push(before, self@.last(), old(self).map@, self.map@);
        }
    }

    /// Add a field of unsigned numbers.
    pub fn add_unsigned(&mut self, name: &str, stored: bool, indexed: bool)
        requires
            old(self).wf(),
            has_room(old(self)@, name@),
        ensures
            final(self).wf(),
            final(self)@ == old(self)@.push(
                (FieldView {
                    name: name@,
                    shape: ShapeView::Unsigned(fast_numeric(stored, indexed)),
                }),
            ),
    {
        let ghost before = self@;
        let number = add_unsigned_field(&mut self.builder, name, numeric_options(stored, indexed));
        self.map.insert(name.to_owned(), number);
        proof {
            lemma_numbers_push(before, self@.last(), old(self).map@, self.map@);
        }
    }

    /// The finished schema and the numbers of its fields.
    pub fn build(self) -> (r: (Schema, FieldMap))
        requires
            self.wf(),
        ensures
            schema_fields(r.0) == self@,
            numbers(r.1@, self@),
    {
        (self.builder.build(), self.map)
    }
}

proof fn lemma_numbers_push(
    fields: Seq<FieldView>,
    field: FieldView,
    before: Map<Seq<char>, u32>,
    after: Map<Seq<char>, u32>,
)
    requires
        numbers(before, fields),
        !named(fields, field.name),
        fields.len() <= u32::MAX,
        after == before.insert(field.name, fields.len() as u32),
    ensures
        numbers(after, fields.push(field)),
{
    let pushed = fields.push(field);
    assert forall|name: Seq<char>| #[trigger] after.contains_key(name) implies named(
        pushed,
        name,
    ) by {
        if name == field.name {
            assert(pushed[fields.len() as int].name == name);
        } else {
            assert(before.contains_key(name));
            let i = choose|i: int| 0 <= i < fields.len() && (#[trigger] fields[i]).name == name;
            assert(pushed[i].name == name);
        }
    }
    assert forall|i: int| 0 <= i < pushed.len() implies after.contains_key(
        (#[trigger] pushed[i]).name,
    ) && after[pushed[i].name] == i by {
        if i < fields.len() {
            assert(pushed[i] == fields[i]);
        }
    }
}

/// The map of a schema is determined by its fields: a name has a number where some
/// field has it, and the number says which.
pub proof fn field_map_is_determined(
    fields: Seq<FieldView>,
    a: Map<Seq<char>, u32>,
    b: Map<Seq<char>, u32>,
)
    requires
        numbers(a, fields),
        numbers(b, fields),
    ensures
        a == b,
{
    assert forall|name: Seq<char>| a.contains_key(name) == b.contains_key(name) by {
        if named(fields, name) {
            let i = choose|i: int| 0 <= i < fields.len() && (#[trigger] fields[i]).name == name;
            assert(a.contains_key(fields[i].name) && b.contains_key(fields[i].name));
        }
    }
    assert forall|name: Seq<char>| #[trigger] a.contains_key(name) implies a[name] == b[name] by {
        let i = choose|i: int| 0 <= i < fields.len() && (#[trigger] fields[i]).name == name;
        assert(a[fields[i].name] == i && b[fields[i].name] == i);
    }
    assert(a =~= b);
}

// ---------------------------------------------------------------------------
// Laws
// ---------------------------------------------------------------------------

/// A text field is stored and indexed as it was asked to be, and where it is indexed, by
/// its tokenizer and with the places of its words.
pub proof fn text_fields_are_as_asked(stored: bool, indexed: bool, tokenizer: Seq<char>)
    ensures
        text_shape(stored, indexed, tokenizer) matches ShapeView::Text(options) && {
            &&& options.stored == stored
            &&& options.indexing is Some <==> indexed
            &&& options.indexing matches Some(i) ==> i.tokenizer == tokenizer && i.record
                == Record::WithFreqsAndPositions && i.fieldnorms
            &&& !options.fast
            &&& !options.coerce
        },
{
}

/// A numeric field is stored and indexed as it was asked to be, and has fast access.
pub proof fn numeric_fields_are_as_asked(stored: bool, indexed: bool)
    ensures
        fast_numeric(stored, indexed).stored == stored,
        fast_numeric(stored, indexed).indexed == indexed,
        fast_numeric(stored, indexed).fast,
        !fast_numeric(stored, indexed).fieldnorms,
        !fast_numeric(stored, indexed).coerce,
{
}

/// The number of a field is its place in the schema, and no other name has one.
pub proof fn numbers_are_places(
    map: Map<Seq<char>, u32>,
    fields: Seq<FieldView>,
    name: Seq<char>,
    i: int,
)
    requires
        numbers(map, fields),
    ensures
        map.contains_key(name) ==> map[name] < fields.len() && fields[map[name] as int].name
            == name,
        0 <= i < fields.len() ==> map.contains_key(fields[i].name) && map[fields[i].name] == i,
        map.contains_key(name) <==> exists|k: int|
            0 <= k < fields.len() && (#[trigger] fields[k]).name == name,
{
    if map.contains_key(name) {
        assert(named(fields, name));
        let k = choose|k: int| 0 <= k < fields.len() && (#[trigger] fields[k]).name == name;
        assert(map[fields[k].name] == k);
    }
}

/// A field can be added where its name is not empty, does not begin with a hyphen, and is
/// not taken, while there are numbers left.
pub proof fn free_names_have_room(fields: Seq<FieldView>, name: Seq<char>, i: int)
    ensures
        has_room(fields, name) && 0 <= i < fields.len() ==> fields[i].name != name,
        has_room(fields, name) ==> name.len() > 0 && name[0] != '-' && fields.len() <= u32::MAX,
        name.len() > 0 && name[0] != '-' && fields.len() <= u32::MAX && (forall|k: int|
            0 <= k < fields.len() ==> (#[trigger] fields[k]).name != name) ==> has_room(
            fields,
            name,
        ),
{
}

} // verus!
