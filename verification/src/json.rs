//! JSON values and numbers.

use vstd::prelude::*;

verus! {

/// A double-precision number, held by its IEEE 754 bit pattern.
///
/// The library stores, compares and hands on such numbers; it does no
/// arithmetic with them.
#[derive(Clone, Copy, Debug, PartialEq, Eq, Structural)]
pub struct Number {
    /// The bit pattern: one sign bit, eleven exponent bits, fifty-two fraction
    /// bits.
    pub bits: u64,
}

impl Number {
    /// The number is neither an infinity nor a NaN: its exponent bits are not
    /// all ones.
    pub open spec fn finite(self) -> bool {
        (self.bits as int / 0x10_0000_0000_0000) % 0x800 != 0x7FF
    }

    /// Whether the number is neither an infinity nor a NaN.
    pub fn is_finite(&self) -> (r: bool)
        ensures
            r == self.finite(),
    {
        (self.bits / 0x10_0000_0000_0000) % 0x800 != 0x7FF
    }
}

/// A JSON value.
#[derive(Debug)]
pub enum Json {
    Null,
    Bool(bool),
    Number(Number),
    Text(String),
    Array(Vec<Json>),
    /// The members of an object, each with its name.
    Object(Vec<(String, Json)>),
}

/// The mathematical value of a [`Json`].
#[verifier::ext_equal]
pub enum JsonView {
    Null,
    Bool(bool),
    Number(Number),
    Text(Seq<char>),
    Array(Seq<JsonView>),
    Object(Seq<(Seq<char>, JsonView)>),
}

impl View for Json {
    type V = JsonView;

    open spec fn view(&self) -> JsonView
        decreases self,
    {
        match self {
            Json::Null => JsonView::Null,
            Json::Bool(b) => JsonView::Bool(*b),
            Json::Number(n) => JsonView::Number(*n),
            Json::Text(s) => JsonView::Text(s@),
            Json::Array(items) => JsonView::Array(
                Seq::new(
                    items@.len(),
                    |i: int|
                        if 0 <= i < items@.len() {
                            items@[i].view()
                        } else {
                            JsonView::Null
                        },
                ),
            ),
            Json::Object(members) => JsonView::Object(
                Seq::new(
                    members@.len(),
                    |i: int|
                        if 0 <= i < members@.len() {
                            (members@[i].0@, members@[i].1.view())
                        } else {
                            (Seq::empty(), JsonView::Null)
                        },
                ),
            ),
        }
    }
}

// ---------------------------------------------------------------------------
// Reading
// ---------------------------------------------------------------------------

/// `serde_json::Value`: a JSON value as it is read.
#[verifier::external_type_specification]
#[verifier::external_body]
pub struct ExSerdeJsonValue(serde_json::Value);

/// What `serde_json::from_str` reads from a text as an object: its members, each name
/// once, or the message of its error.
pub uninterp spec fn parsed_object(text: Seq<char>) -> Result<
    Seq<(Seq<char>, JsonView)>,
    Seq<char>,
>;

/// The members of an object by their values.
pub open spec fn member_views(members: Seq<(String, Json)>) -> Seq<(Seq<char>, JsonView)> {
    Seq::new(members.len(), |i: int| (members[i].0@, members[i].1@))
}

/// What was read, by its value.
pub open spec fn object_view(r: Result<Vec<(String, Json)>, String>) -> Result<
    Seq<(Seq<char>, JsonView)>,
    Seq<char>,
> {
    match r {
        Ok(members) => Ok(member_views(members@)),
        Err(message) => Err(message@),
    }
}

/// The value that a `serde_json::Value` holds; a number as `serde_json::Number::as_f64`
/// gives it.  What that is for a given value is not stated.
#[verifier::external_body]
fn json_of(v: serde_json::Value) -> (r: Json) {
    match v {
        serde_json::Value::Null => Json::Null,
        serde_json::Value::Bool(b) => Json::Bool(b),
        serde_json::Value::Number(n) => {
            Json::Number(Number { bits: n.as_f64().unwrap_or_default().to_bits() })
        },
        serde_json::Value::String(s) => Json::Text(s),
        serde_json::Value::Array(items) => Json::Array(items.into_iter().map(json_of).collect()),
        serde_json::Value::Object(members) => {
            Json::Object(members.into_iter().map(|(k, v)| (k, json_of(v))).collect())
        },
    }
}

/// `serde_json::from_str` into a `serde_json::Map`: the members of the object that the
/// text is, each with its value, or the message of the error.  It depends on the text
/// alone; what is read from a given text is not stated.
#[verifier::external_body]
pub(crate) fn parse_object(text: &str) -> (r: Result<Vec<(String, Json)>, String>)
    ensures
        object_view(r) == parsed_object(text@),
{
    match serde_json::from_str::<serde_json::Map<String, serde_json::Value>>(text) {
        Ok(members) => Ok(members.into_iter().map(|(k, v)| (k, json_of(v))).collect()),
        Err(e) => Err(e.to_string()),
    }
}

// ---------------------------------------------------------------------------
// Laws
// ---------------------------------------------------------------------------

/// A number is finite where its exponent is not all ones: below the bits of infinity.
pub proof fn finite_numbers_lie_below_infinity(n: Number)
    ensures
        n.finite() <==> n.bits as int % 0x8000_0000_0000_0000 < 0x7FF0_0000_0000_0000,
{
    let b = n.bits as int;
    let high = b / 0x10_0000_0000_0000;
    assert(b == high * 0x10_0000_0000_0000 + b % 0x10_0000_0000_0000);
    if b < 0x8000_0000_0000_0000 {
        assert(b % 0x8000_0000_0000_0000 == b);
        assert(high < 0x800);
        assert(high % 0x800 == high);
    } else {
        assert(b % 0x8000_0000_0000_0000 == b - 0x8000_0000_0000_0000);
        assert(0x800 <= high < 0x1000);
        assert(high % 0x800 == high - 0x800);
    }
}

/// A JSON value shows what it holds.
pub proof fn json_shows_what_it_holds(
    b: bool,
    n: Number,
    t: String,
    items: Vec<Json>,
    members: Vec<(String, Json)>,
    i: int,
    read: Result<Vec<(String, Json)>, String>,
)
    ensures
        Json::Null@ == JsonView::Null,
        Json::Bool(b)@ == JsonView::Bool(b),
        Json::Number(n)@ == JsonView::Number(n),
        Json::Text(t)@ == JsonView::Text(t@),
        Json::Array(items)@ matches JsonView::Array(views) && views.len() == items@.len() && (0
            <= i < items@.len() ==> views[i] == items@[i]@),
        Json::Object(members)@ matches JsonView::Object(views) && views.len() == members@.len()
            && (0 <= i < members@.len() ==> views[i] == (members@[i].0@, members@[i].1@)),
        object_view(read) is Ok <==> read is Ok,
        read matches Ok(list) ==> object_view(read)->Ok_0.len() == list@.len() && (0 <= i
            < list@.len() ==> object_view(read)->Ok_0[i] == (list@[i].0@, list@[i].1@)),
        read matches Err(message) ==> object_view(read)->Err_0 == message@,
{
    reveal_with_fuel(<Json as View>::view, 2);
}

} // verus!
