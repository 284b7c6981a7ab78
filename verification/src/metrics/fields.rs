//! Spans, and the fields that they carry.
use vstd::prelude::*;

use crate::outside::{parse_uuid, parsed_uuid, quote, quoted};
use crate::text::{decimal, decimal_text, same_text, texts};

verus! {

/// The value of a field.
#[derive(Debug, PartialEq, Eq)]
pub enum FieldValue {
    /// None: the field is declared, and may get a value later.
    Empty,
    U64(u64),
    Str(String),
    /// Any other value, as text for debugging.
    Debug(String),
}

/// The fields of a span, in the order in which they were set.
pub type Attributes = Vec<(String, FieldValue)>;

/// A span to open: its name and its fields.
#[derive(Debug, PartialEq, Eq)]
pub struct SpanRecord {
    pub name: String,
    pub fields: Attributes,
}

/// The field that marks a span that is to be reported. It has no value.
pub const REPORT_FIELD: &'static str = "report";

/// The content of a [`FieldValue`].
pub enum FieldValueModel {
    Empty,
    U64(u64),
    Str(Seq<char>),
    Debug(Seq<char>),
}

impl View for FieldValue {
    type V = FieldValueModel;

    open spec fn view(&self) -> FieldValueModel {
        match *self {
            FieldValue::Empty => FieldValueModel::Empty,
            FieldValue::U64(n) => FieldValueModel::U64(n),
            FieldValue::Str(s) => FieldValueModel::Str(s@),
            FieldValue::Debug(s) => FieldValueModel::Debug(s@),
        }
    }
}

/// A field: its name and its value.
pub type AttributeModel = (Seq<char>, FieldValueModel);

/// The contents of fields.
pub open spec fn attributes_model(attrs: Seq<(String, FieldValue)>) -> Seq<AttributeModel> {
    attrs.map_values(|a: (String, FieldValue)| (a.0@, a.1@))
}

// ---------------------------------------------------------------------------
// Looking up fields
// ---------------------------------------------------------------------------
/// The number that a field called `name` holds: of several, the last one. Without one, zero.
pub open spec fn number(attrs: Seq<AttributeModel>, name: Seq<char>) -> u64
    decreases attrs.len(),
{
    if attrs.len() == 0 {
        0
    } else {
        match attrs.last() {
            (n, FieldValueModel::U64(value)) if n == name => value,
            _ => number(attrs.drop_last(), name),
        }
    }
}

/// A value as text for debugging, where it has one.
pub open spec fn debug_text(value: FieldValueModel) -> Option<Seq<char>> {
    match value {
        FieldValueModel::Empty => None,
        FieldValueModel::U64(n) => Some(decimal_text(n as nat)),
        FieldValueModel::Str(s) => Some(quoted(s)),
        FieldValueModel::Debug(s) => Some(s),
    }
}

/// A value as text for debugging, where it is not a number.
pub open spec fn other_text(value: FieldValueModel) -> Option<Seq<char>> {
    match value {
        FieldValueModel::U64(_) => None,
        value => debug_text(value),
    }
}

/// The identifier that a field called `name` holds: of several that are well-formed, the last one.
/// Without one, zero. Numbers count only if `numbers` says so.
pub open spec fn identifier(attrs: Seq<AttributeModel>, name: Seq<char>, numbers: bool) -> u128
    decreases attrs.len(),
{
    if attrs.len() == 0 {
        0
    } else {
        let rest = identifier(attrs.drop_last(), name, numbers);
        let (n, value) = attrs.last();
        match (if numbers {
            debug_text(value)
        } else {
            other_text(value)
        }) {
            Some(text) if n == name => match parsed_uuid(text) {
                Some(id) => id,
                None => rest,
            },
            _ => rest,
        }
    }
}

/// The texts in fields called `name` that are no identifiers, though they should be, in order.
/// Numbers count only if `numbers` says so.
pub open spec fn malformed(attrs: Seq<AttributeModel>, name: Seq<char>, numbers: bool) -> Seq<
    Seq<char>,
>
    decreases attrs.len(),
{
    if attrs.len() == 0 {
        Seq::empty()
    } else {
        let rest = malformed(attrs.drop_last(), name, numbers);
        let (n, value) = attrs.last();
        match (if numbers {
            debug_text(value)
        } else {
            other_text(value)
        }) {
            Some(text) if n == name && parsed_uuid(text) is None => rest.push(text),
            _ => rest,
        }
    }
}

/// The text that a field called `name` holds, which is not a number: of several, the last one.
/// Without one, the empty text.
pub open spec fn text_field(attrs: Seq<AttributeModel>, name: Seq<char>) -> Seq<char>
    decreases attrs.len(),
{
    if attrs.len() == 0 {
        Seq::empty()
    } else {
        match (attrs.last().0 == name, other_text(attrs.last().1)) {
            (true, Some(text)) => text,
            _ => text_field(attrs.drop_last(), name),
        }
    }
}

/// The string that a field called `name` holds: of several, the last one.
pub open spec fn string_field(attrs: Seq<AttributeModel>, name: Seq<char>) -> Option<Seq<char>>
    decreases attrs.len(),
{
    if attrs.len() == 0 {
        None
    } else {
        match attrs.last() {
            (n, FieldValueModel::Str(s)) if n == name => Some(s),
            _ => string_field(attrs.drop_last(), name),
        }
    }
}

/// The number that a field called `name` holds.
pub fn find_number(attrs: &Attributes, name: &str) -> (r: u64)
    ensures
        r == number(attributes_model(attrs@), name@),
{
    let ghost model = attributes_model(attrs@);
    let mut i: usize = attrs.len();
    assert(model.take(i as int) =~= model);
    while i > 0
        invariant
            i <= attrs.len(),
            model == attributes_model(attrs@),
            number(model, name@) == number(model.take(i as int), name@),
        decreases i,
    {
        assert(model.take(i as int).last() == (attrs@[i - 1].0@, attrs@[i - 1].1@));
        assert(model.take(i as int).drop_last() =~= model.take(i - 1));
        if let FieldValue::U64(value) = &attrs[i - 1].1 {
            if same_text(attrs[i - 1].0.as_str(), name) {
                return *value;
            }
        }
        i = i - 1;
    }
    0
}

/// A value as text for debugging, where it has one.
fn value_text(value: &FieldValue, numbers: bool) -> (r: Option<String>)
    ensures
        match r {
            Some(text) => (if numbers {
                debug_text(value@)
            } else {
                other_text(value@)
            }) == Some(text@),
            None => (if numbers {
                debug_text(value@)
            } else {
                other_text(value@)
            }) is None,
        },
{
    match value {
        FieldValue::Empty => None,
        FieldValue::U64(n) => if numbers {
            Some(decimal(*n))
        } else {
            None
        },
        FieldValue::Str(s) => Some(quote(s.as_str())),
        FieldValue::Debug(s) => Some(s.clone()),
    }
}

/// The identifier that a field called `name` holds.
pub fn find_identifier(attrs: &Attributes, name: &str, numbers: bool) -> (r: u128)
    ensures
        r == identifier(attributes_model(attrs@), name@, numbers),
{
    let ghost model = attributes_model(attrs@);
    let mut i: usize = attrs.len();
    assert(model.take(i as int) =~= model);
    while i > 0
        invariant
            i <= attrs.len(),
            model == attributes_model(attrs@),
            identifier(model, name@, numbers) == identifier(
                model.take(i as int),
                name@,
                numbers,
            ),
        decreases i,
    {
        assert(model.take(i as int).last() == (attrs@[i - 1].0@, attrs@[i - 1].1@));
        assert(model.take(i as int).drop_last() =~= model.take(i - 1));
        if same_text(attrs[i - 1].0.as_str(), name) {
            if let Some(text) = value_text(&attrs[i - 1].1, numbers) {
                if let Some(id) = parse_uuid(text.as_str()) {
                    return id;
                }
            }
        }
        i = i - 1;
    }
    0
}

/// The texts in fields called `name` that are no identifiers, though they should be.
pub fn find_malformed(attrs: &Attributes, name: &str, numbers: bool) -> (r: Vec<String>)
    ensures
        texts(r@) == malformed(attributes_model(attrs@), name@, numbers),
{
    let ghost model = attributes_model(attrs@);
    let mut r: Vec<String> = Vec::new();
    let mut i: usize = 0;
    assert(texts(r@) =~= Seq::empty());
    while i < attrs.len()
        invariant
            i <= attrs.len(),
            model == attributes_model(attrs@),
            texts(r@) == malformed(model.take(i as int), name@, numbers),
        decreases attrs.len() - i,
    {
        let ghost before = r@;
        assert(model.take(i + 1).last() == (attrs@[i as int].0@, attrs@[i as int].1@));
        assert(model.take(i + 1).drop_last() =~= model.take(i as int));
        if same_text(attrs[i].0.as_str(), name) {
            if let Some(text) = value_text(&attrs[i].1, numbers) {
                if parse_uuid(text.as_str()).is_none() {
                    let ghost added = text@;
                    r.push(text);
                    assert(texts(r@) =~= texts(before).push(added));
                }
            }
        }
        i = i + 1;
    }
    assert(model.take(i as int) =~= model);
    r
}

/// The text that a field called `name` holds, which is not a number.
pub fn find_text(attrs: &Attributes, name: &str) -> (r: String)
    ensures
        r@ == text_field(attributes_model(attrs@), name@),
{
    let ghost model = attributes_model(attrs@);
    let mut i: usize = attrs.len();
    assert(model.take(i as int) =~= model);
    while i > 0
        invariant
            i <= attrs.len(),
            model == attributes_model(attrs@),
            text_field(model, name@) == text_field(model.take(i as int), name@),
        decreases i,
    {
        assert(model.take(i as int).last() == (attrs@[i - 1].0@, attrs@[i - 1].1@));
        assert(model.take(i as int).drop_last() =~= model.take(i - 1));
        if same_text(attrs[i - 1].0.as_str(), name) {
            if let Some(text) = value_text(&attrs[i - 1].1, false) {
                return text;
            }
        }
        i = i - 1;
    }
    proof {
        reveal_strlit("");
    }
    let r = "".to_owned();
    assert(r@ =~= Seq::empty());
    r
}

/// The string that a field called `name` holds.
pub fn find_string<'a>(attrs: &'a Attributes, name: &str) -> (r: Option<&'a String>)
    ensures
        match r {
            Some(s) => string_field(attributes_model(attrs@), name@) == Some(s@),
            None => string_field(attributes_model(attrs@), name@) is None,
        },
{
    let ghost model = attributes_model(attrs@);
    let mut i: usize = attrs.len();
    assert(model.take(i as int) =~= model);
    while i > 0
        invariant
            i <= attrs.len(),
            model == attributes_model(attrs@),
            string_field(model, name@) == string_field(model.take(i as int), name@),
        decreases i,
    {
        assert(model.take(i as int).last() == (attrs@[i - 1].0@, attrs@[i - 1].1@));
        assert(model.take(i as int).drop_last() =~= model.take(i - 1));
        if let FieldValue::Str(s) = &attrs[i - 1].1 {
            if same_text(attrs[i - 1].0.as_str(), name) {
                return Some(s);
            }
        }
        i = i - 1;
    }
    None
}

// ---------------------------------------------------------------------------
// Setting fields
// ---------------------------------------------------------------------------
impl SpanRecord {
    /// The contents of its fields.
    pub open spec fn attributes(self) -> Seq<AttributeModel> {
        attributes_model(self.fields@)
    }

    /// A span called `name` that is to be reported.
    pub fn reported(name: &str) -> (r: Self)
        ensures
            r.name@ == name@,
            r.attributes() == seq![(REPORT_FIELD@, FieldValueModel::Empty)],
    {
        let mut fields: Attributes = Vec::new();
        fields.push((REPORT_FIELD.to_owned(), FieldValue::Empty));
        assert(attributes_model(fields@) =~= seq![(REPORT_FIELD@, FieldValueModel::Empty)]);
        SpanRecord { name: name.to_owned(), fields }
    }

    /// The span with one more field.
    pub fn with(self, name: &str, value: FieldValue) -> (r: Self)
        ensures
            r.name == self.name,
            r.attributes() == self.attributes().push((name@, value@)),
    {
        let ghost before = self.attributes();
        let mut fields = self.fields;
        fields.push((name.to_owned(), value));
        assert(attributes_model(fields@) =~= before.push((name@, value@)));
        SpanRecord { name: self.name, fields }
    }
}

// ---------------------------------------------------------------------------
// Looking up what was set
// ---------------------------------------------------------------------------
/// A number that is set last is found; other fields do not hide it.
pub broadcast proof fn lemma_number_push(attrs: Seq<AttributeModel>, a: AttributeModel, name: Seq<char>)
    ensures
        #[trigger] number(attrs.push(a), name) == (match a.1 {
            FieldValueModel::U64(value) if a.0 == name => value,
            _ => number(attrs, name),
        }),
{
    assert(attrs.push(a).drop_last() =~= attrs);
}

/// An identifier that is set last is found; other fields do not hide it.
pub broadcast proof fn lemma_identifier_push(
    attrs: Seq<AttributeModel>,
    a: AttributeModel,
    name: Seq<char>,
    numbers: bool,
)
    ensures
        #[trigger] identifier(attrs.push(a), name, numbers) == (match (if numbers {
            debug_text(a.1)
        } else {
            other_text(a.1)
        }) {
            Some(text) if a.0 == name && parsed_uuid(text) is Some => parsed_uuid(text)->0,
            _ => identifier(attrs, name, numbers),
        }),
{
    assert(attrs.push(a).drop_last() =~= attrs);
}

/// A text that is set last is found; other fields do not hide it.
pub broadcast proof fn lemma_text_field_push(
    attrs: Seq<AttributeModel>,
    a: AttributeModel,
    name: Seq<char>,
)
    ensures
        #[trigger] text_field(attrs.push(a), name) == (match other_text(a.1) {
            Some(text) if a.0 == name => text,
            _ => text_field(attrs, name),
        }),
{
    assert(attrs.push(a).drop_last() =~= attrs);
}

/// A string that is set last is found; other fields do not hide it.
pub broadcast proof fn lemma_string_field_push(
    attrs: Seq<AttributeModel>,
    a: AttributeModel,
    name: Seq<char>,
)
    ensures
        #[trigger] string_field(attrs.push(a), name) == (match a.1 {
            FieldValueModel::Str(s) if a.0 == name => Some(s),
            _ => string_field(attrs, name),
        }),
{
    assert(attrs.push(a).drop_last() =~= attrs);
}

/// A span without a field holds nothing: no number but zero, no identifier but zero, and no text.
pub proof fn law_without_fields_nothing_is_found(name: Seq<char>, numbers: bool)
    ensures
        number(Seq::empty(), name) == 0,
        identifier(Seq::empty(), name, numbers) == 0,
        text_field(Seq::empty(), name) == Seq::<char>::empty(),
        string_field(Seq::empty(), name) is None,
        malformed(Seq::empty(), name, numbers) == Seq::<Seq<char>>::empty(),
{
}

/// A field of another name changes nothing. Of several of one name the last one counts: a number for a
/// number, a string for a string, and what can be read as an identifier for an identifier. What
/// should be an identifier, and cannot be read as one, is passed over, and named.
pub proof fn law_last_field_counts(
    attrs: Seq<AttributeModel>,
    name: Seq<char>,
    value: FieldValueModel,
    other: Seq<char>,
    numbers: bool,
)
    ensures
        ({
            let more = attrs.push((name, value));
            &&& other != name ==> {
                &&& number(more, other) == number(attrs, other)
                &&& string_field(more, other) == string_field(attrs, other)
                &&& text_field(more, other) == text_field(attrs, other)
                &&& identifier(more, other, numbers) == identifier(attrs, other, numbers)
                &&& malformed(more, other, numbers) == malformed(attrs, other, numbers)
            }
            &&& value matches FieldValueModel::U64(n) ==> number(more, name) == n && string_field(
                more,
                name,
            ) == string_field(attrs, name) && text_field(more, name) == text_field(attrs, name)
                && identifier(more, name, false) == identifier(attrs, name, false)
            &&& value matches FieldValueModel::Str(s) ==> string_field(more, name) == Some(s)
                && number(more, name) == number(attrs, name)
            &&& value matches FieldValueModel::Debug(s) ==> {
                &&& text_field(more, name) == s
                &&& number(more, name) == number(attrs, name)
                &&& string_field(more, name) == string_field(attrs, name)
                &&& parsed_uuid(s) matches Some(id) ==> identifier(more, name, numbers) == id
                    && malformed(more, name, numbers) == malformed(attrs, name, numbers)
                &&& parsed_uuid(s) is None ==> identifier(more, name, numbers) == identifier(
                    attrs,
                    name,
                    numbers,
                ) && malformed(more, name, numbers) == malformed(attrs, name, numbers).push(s)
            }
            &&& value is Empty ==> {
                &&& number(more, name) == number(attrs, name)
                &&& string_field(more, name) == string_field(attrs, name)
                &&& text_field(more, name) == text_field(attrs, name)
                &&& identifier(more, name, numbers) == identifier(attrs, name, numbers)
                &&& malformed(more, name, numbers) == malformed(attrs, name, numbers)
            }
        }),
{
    assert(attrs.push((name, value)).drop_last() =~= attrs);
}

} // verus!
