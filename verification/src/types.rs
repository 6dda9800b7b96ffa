use vstd::prelude::*;

verus! {

broadcast use vstd::std_specs::vec::group_vec_axioms;

/// The parse error taxonomy. Every grammar violation is fatal to the parse
/// call that produced it and is propagated upward unchanged.
#[derive(Debug, Clone, PartialEq, Eq, Structural)]
pub enum Error {
    /// End of input was reached while a production needed another character.
    UnexpectedEof,
    /// A character (with its 0-based character position) that cannot continue
    /// the current production, or trailing content after the top-level value.
    UnexpectedToken(char, usize),
    /// A 4-digit hex escape could not be converted to an integer. Kept
    /// representable although the hex-digit validation makes it unreachable.
    Int,
    /// A `\uXXXX` escape names a code point (reported with the cursor
    /// position) that is not a valid Unicode scalar value.
    InvalidUnicodeCodePoint(u32, usize),
}

/// A position in the source text: `line` counts line feeds seen so far,
/// `column` follows the column accounting rules (space +1, tab +4, carriage
/// return and line feed reset it), and `pos` is the 0-based character index
/// (Unicode scalar values, not bytes). All three are 0-based.
#[derive(Debug, Clone, Copy, PartialEq, Eq, Hash, Default, Structural)]
pub struct Location {
    pub line: usize,
    pub column: usize,
    pub pos: usize,
}

/// The parse options.
#[derive(Debug, Clone, Copy, PartialEq, Eq, Hash, Default, Structural)]
pub struct Options {
    /// Whether to allow big integers. Accepted for forward compatibility;
    /// number literals are always captured verbatim as a string, so this
    /// flag does not change parsing behaviour.
    pub bigint: bool,
}

/// The four roles a location can play for one JSON pointer.
#[derive(Debug, Clone, Copy, PartialEq, Eq, Hash, Structural)]
pub enum Prop {
    /// Start of a property name's opening quote.
    Key,
    /// Position immediately after the closing quote of a property name.
    KeyEnd,
    /// Start of a value's first token.
    Value,
    /// Position immediately after a value's last token.
    ValueEnd,
}

/// The locations recorded for one JSON pointer: at most one per [`Prop`].
/// Only object member pointers carry `Key`/`KeyEnd`; every pointer that was
/// fully parsed carries `Value`/`ValueEnd`.
#[derive(Debug, Clone, Copy, PartialEq, Eq)]
pub struct LocationMap {
    pub key_loc: Option<Location>,
    pub key_end_loc: Option<Location>,
    pub value_loc: Option<Location>,
    pub value_end_loc: Option<Location>,
}

impl LocationMap {
    /// The map with no location recorded for any role.
    pub open spec fn spec_empty() -> LocationMap {
        LocationMap { key_loc: None, key_end_loc: None, value_loc: None, value_end_loc: None }
    }

    /// The location recorded for `prop`, if any.
    pub open spec fn spec_get(self, prop: Prop) -> Option<Location> {
        match prop {
            Prop::Key => self.key_loc,
            Prop::KeyEnd => self.key_end_loc,
            Prop::Value => self.value_loc,
            Prop::ValueEnd => self.value_end_loc,
        }
    }

    /// `self` with the location for `prop` replaced by `loc`.
    pub open spec fn spec_set(self, prop: Prop, loc: Location) -> LocationMap {
        match prop {
            Prop::Key => LocationMap { key_loc: Some(loc), ..self },
            Prop::KeyEnd => LocationMap { key_end_loc: Some(loc), ..self },
            Prop::Value => LocationMap { value_loc: Some(loc), ..self },
            Prop::ValueEnd => LocationMap { value_end_loc: Some(loc), ..self },
        }
    }

    pub(crate) fn empty() -> (r: LocationMap)
        ensures
            r == LocationMap::spec_empty(),
    {
        LocationMap { key_loc: None, key_end_loc: None, value_loc: None, value_end_loc: None }
    }

    /// Get the location of the property.
    pub fn get(&self, prop: Prop) -> (r: Option<Location>)
        ensures
            r == self.spec_get(prop),
    {
        match prop {
            Prop::Key => self.key_loc,
            Prop::KeyEnd => self.key_end_loc,
            Prop::Value => self.value_loc,
            Prop::ValueEnd => self.value_end_loc,
        }
    }

    pub(crate) fn insert(&mut self, prop: Prop, loc: Location)
        ensures
            *final(self) == old(self).spec_set(prop, loc),
    {
        match prop {
            Prop::Key => self.key_loc = Some(loc),
            Prop::KeyEnd => self.key_end_loc = Some(loc),
            Prop::Value => self.value_loc = Some(loc),
            Prop::ValueEnd => self.value_end_loc = Some(loc),
        }
    }

    /// Get the start location of the json pointer's value.
    pub fn value(&self) -> (r: Location)
        requires
            self.spec_get(Prop::Value) is Some,
        ensures
            Some(r) == self.spec_get(Prop::Value),
    {
        self.value_loc.unwrap()
    }

    /// Get the start location of the json pointer's key.
    pub fn key(&self) -> (r: Location)
        requires
            self.spec_get(Prop::Key) is Some,
        ensures
            Some(r) == self.spec_get(Prop::Key),
    {
        self.key_loc.unwrap()
    }

    /// Get the end location of the json pointer's value.
    pub fn value_end(&self) -> (r: Location)
        requires
            self.spec_get(Prop::ValueEnd) is Some,
        ensures
            Some(r) == self.spec_get(Prop::ValueEnd),
    {
        self.value_end_loc.unwrap()
    }

    /// Get the end location of the json pointer's key.
    pub fn key_end(&self) -> (r: Location)
        requires
            self.spec_get(Prop::KeyEnd) is Some,
        ensures
            Some(r) == self.spec_get(Prop::KeyEnd),
    {
        self.key_end_loc.unwrap()
    }
}

/// Mathematical model of a JSON document tree: strings are sequences of
/// Unicode scalar values, numbers keep their literal source text.
pub ghost enum SpecValue {
    Null,
    Bool(bool),
    Number(Seq<char>),
    Str(Seq<char>),
    Array(Seq<SpecValue>),
    Object(Seq<(Seq<char>, SpecValue)>),
}

/// A parsed JSON value. Numbers carry the exact literal substring from the
/// source text; conversion to a numeric type is the caller's concern.
/// Objects keep their members in first-insertion order; a duplicate key
/// overwrites the earlier member's value (last write wins).
#[derive(Debug, PartialEq)]
pub enum JsonValue {
    Null,
    Bool(bool),
    Number(String),
    Str(String),
    Array(Vec<JsonValue>),
    Object(Vec<(String, JsonValue)>),
}

impl JsonValue {
    /// The mathematical tree this value represents.
    pub open spec fn deep_view(&self) -> SpecValue
        decreases self,
    {
        match self {
            JsonValue::Null => SpecValue::Null,
            JsonValue::Bool(b) => SpecValue::Bool(*b),
            JsonValue::Number(s) => SpecValue::Number(s@),
            JsonValue::Str(s) => SpecValue::Str(s@),
            JsonValue::Array(items) => SpecValue::Array(
                Seq::new(
                    items.len() as nat,
                    |i: int|
                        if 0 <= i < items.len() {
                            items[i].deep_view()
                        } else {
                            SpecValue::Null
                        },
                ),
            ),
            JsonValue::Object(members) => SpecValue::Object(
                Seq::new(
                    members.len() as nat,
                    |i: int|
                        if 0 <= i < members.len() {
                            (members[i].0@, members[i].1.deep_view())
                        } else {
                            (Seq::empty(), SpecValue::Null)
                        },
                ),
            ),
        }
    }
}

/// The element-wise mathematical view of a sequence of array items.
pub open spec fn items_view(items: Seq<JsonValue>) -> Seq<SpecValue> {
    Seq::new(items.len(), |i: int| items[i].deep_view())
}

/// The element-wise mathematical view of a sequence of object members.
pub open spec fn members_view(members: Seq<(String, JsonValue)>) -> Seq<(Seq<char>, SpecValue)> {
    Seq::new(members.len(), |i: int| (members[i].0@, members[i].1.deep_view()))
}

/// An array value's tree is the tree of its items.
pub proof fn lemma_array_deep_view(items: Vec<JsonValue>)
    ensures
        JsonValue::Array(items).deep_view() == SpecValue::Array(items_view(items@)),
{
    let s = JsonValue::Array(items).deep_view();
    assert(s is Array);
    assert(s->Array_0 =~= items_view(items@));
}

/// An object value's tree is the tree of its members.
pub proof fn lemma_object_deep_view(members: Vec<(String, JsonValue)>)
    ensures
        JsonValue::Object(members).deep_view() == SpecValue::Object(members_view(members@)),
{
    let s = JsonValue::Object(members).deep_view();
    assert(s is Object);
    assert(s->Object_0 =~= members_view(members@));
}

} // verus!
