//! Parsing JSON-AD: resources written as JSON objects whose keys are the addresses of properties.
use crate::agents::ForAgent;
use crate::errors::{AtomicError, AtomicResult, ErrorView};
use crate::json::{Json, JsonValue};
use crate::text::{cat2, cat3, same};
use crate::urls;
use crate::values::{DataType, DataTypeView, PropVals, PropValue, PropValueView, Resource, ResourceView, SubResource, SubResourceView};
use vstd::prelude::*;

verus! {

pub const JSON_AD_MIME: &'static str = "application/ad+json";

/// How parsed resources are saved.
#[derive(Clone, Copy, Debug, PartialEq, Eq, Structural)]
pub enum SaveOpts {
    /// They are not saved, and no rights are checked.
    DontSave,
    /// They are saved as they are, in place of what was there. No rights are checked.
    Save,
    /// They are saved by a signed commit each, which keeps properties that are not set.
    /// Rights are checked, unless the import is made for [ForAgent::Sudo].
    Commit,
}

/// Options for parsing resources.
#[derive(Clone, Debug)]
pub struct ParseOpts {
    /// The address under which imported resources are placed that have no parent of their own.
    /// Resources with a `localId` get an address below it.
    pub importer: Option<String>,
    /// Whose rights are checked when resources are saved by commits.
    pub for_agent: ForAgent,
    /// The address of the agent that signs the commits. Without one, the default agent of the store
    /// signs them.
    pub signer: Option<String>,
    pub save: SaveOpts,
    /// Whether resources that are not below the importer may be overwritten.
    pub overwrite_outside: bool,
}

impl Default for ParseOpts {
    fn default() -> (r: ParseOpts)
        ensures
            r.signer is None,
            r.importer is None,
            r.for_agent is Sudo,
            r.overwrite_outside,
            r.save == SaveOpts::Save,
    {
        ParseOpts {
            signer: None,
            importer: None,
            for_agent: ForAgent::Sudo,
            overwrite_outside: true,
            save: SaveOpts::Save,
        }
    }
}

/// Whether a text is taken for an address.
pub open spec fn valid_url(url: Seq<char>) -> bool {
    "http"@.is_prefix_of(url)
}

/// What [check_valid_url] says about a text that is not an address.
pub open spec fn bad_url(url: Seq<char>) -> ErrorView {
    crate::errors::other("Url does not start with http: "@ + url)
}

/// Fails where a text is not an address.
pub fn check_valid_url(url: &str) -> (r: AtomicResult<()>)
    ensures
        r is Ok <==> valid_url(url@),
        r matches Err(e) ==> e@ == bad_url(url@),
{
    if crate::text::starts_with(url, "http") {
        Ok(())
    } else {
        Err(AtomicError::other_error(cat2("Url does not start with http: ", url)))
    }
}

/// The address of a resource that is named by a local id.
pub open spec fn local_subject(importer: Seq<char>, local_id: Seq<char>) -> Seq<char> {
    importer + "/"@ + local_id
}

/// The address of a resource that is named by a local id.
pub fn generate_id_from_local_id(importer_subject: &str, local_id: &str) -> (r: String)
    ensures
        r@ == local_subject(importer_subject@, local_id@),
{
    cat3(importer_subject, "/", local_id)
}

/// The address that a text stands for: itself, or a local id below the importer.
pub open spec fn to_subject(
    subject: Seq<char>,
    prop: Seq<char>,
    importer: Option<Seq<char>>,
) -> Result<Seq<char>, ErrorView> {
    if valid_url(subject) {
        Ok(subject)
    } else {
        match importer {
            Some(importer) => Ok(local_subject(importer, subject)),
            None => Err(
                crate::errors::unparsable(
                    "Unable to parse string as URL: "@ + subject,
                    None,
                    Some(prop),
                ),
            ),
        }
    }
}

/// The address that a text stands for: itself, or a local id below the importer.
pub fn try_to_subject(subject: &str, prop: &str, parse_opts: &ParseOpts) -> (r: AtomicResult<
    String,
>)
    ensures
        match r {
            Ok(s) => to_subject(subject@, prop@, crate::text::opt(parse_opts.importer)) == Ok::<
                Seq<char>,
                ErrorView,
            >(s@),
            Err(e) => to_subject(subject@, prop@, crate::text::opt(parse_opts.importer)) == Err::<
                Seq<char>,
                ErrorView,
            >(e@),
        },
{
    if check_valid_url(subject).is_ok() {
        Ok(subject.to_owned())
    } else {
        match &parse_opts.importer {
            Some(importer) => Ok(generate_id_from_local_id(importer.as_str(), subject)),
            None => {
                let message = cat2("Unable to parse string as URL: ", subject);
                Err(AtomicError::parse_error(message.as_str(), None, Some(prop)))
            },
        }
    }
}

/// What the parser has to be told before it can go on.
pub enum Question {
    /// Which datatype does the property with this address have?
    Property(String),
    /// Is this text a value of this datatype?
    Literal { text: String, datatype: DataType },
}

/// What a [Question] asks.
pub enum QuestionView {
    Property(Seq<char>),
    Literal { text: Seq<char>, datatype: DataTypeView },
}

impl View for Question {
    type V = QuestionView;

    open spec fn view(&self) -> QuestionView {
        match *self {
            Question::Property(url) => QuestionView::Property(url@),
            Question::Literal { text, datatype } => QuestionView::Literal {
                text: text@,
                datatype: datatype@,
            },
        }
    }
}

/// Why the parser stopped before the end.
pub enum Stop {
    Error(AtomicError),
    Ask(Question),
}

/// What a [Stop] says.
pub enum StopView {
    Error(ErrorView),
    Ask(QuestionView),
}

impl View for Stop {
    type V = StopView;

    open spec fn view(&self) -> StopView {
        match *self {
            Stop::Error(e) => StopView::Error(e@),
            Stop::Ask(q) => StopView::Ask(q@),
        }
    }
}

/// The answer to a question about a literal.
pub struct LiteralAnswer {
    pub text: String,
    pub datatype: DataType,
    pub answer: AtomicResult<()>,
}

/// The answers that the parser has been given.
pub struct Schema {
    pub properties: Vec<(String, AtomicResult<DataType>)>,
    pub literals: Vec<LiteralAnswer>,
}

/// What the answers that the parser has been given say.
pub struct SchemaView {
    pub properties: Seq<(Seq<char>, Result<DataTypeView, ErrorView>)>,
    pub literals: Seq<(Seq<char>, DataTypeView, Result<(), ErrorView>)>,
}

/// What the answer to a question about a property says.
pub open spec fn property_answer(answer: (String, AtomicResult<DataType>)) -> (
    Seq<char>,
    Result<DataTypeView, ErrorView>,
) {
    (
        answer.0@,
        match answer.1 {
            Ok(datatype) => Ok(datatype@),
            Err(e) => Err(e@),
        },
    )
}

/// What the answer to a question about a literal says.
pub open spec fn literal_answer(answer: LiteralAnswer) -> (
    Seq<char>,
    DataTypeView,
    Result<(), ErrorView>,
) {
    (
        answer.text@,
        answer.datatype@,
        match answer.answer {
            Ok(_) => Ok(()),
            Err(e) => Err(e@),
        },
    )
}

impl View for Schema {
    type V = SchemaView;

    open spec fn view(&self) -> SchemaView {
        SchemaView {
            properties: self.properties@.map_values(
                |a: (String, AtomicResult<DataType>)| property_answer(a),
            ),
            literals: self.literals@.map_values(|a: LiteralAnswer| literal_answer(a)),
        }
    }
}

/// The datatype of a property, as far as it is known.
pub open spec fn datatype_of(schema: SchemaView, prop: Seq<char>) -> Result<DataTypeView, StopView> {
    match crate::assoc::lookup(schema.properties, prop) {
        Some(Ok(datatype)) => Ok(datatype),
        Some(Err(e)) => Err(StopView::Error(e)),
        None => Err(StopView::Ask(QuestionView::Property(prop))),
    }
}

/// The datatype of a property, as far as it is known.
fn get_datatype(schema: &Schema, prop: &str) -> (r: Result<DataType, Stop>)
    ensures
        match r {
            Ok(d) => datatype_of(schema@, prop@) == Ok::<DataTypeView, StopView>(d@),
            Err(s) => datatype_of(schema@, prop@) == Err::<DataTypeView, StopView>(s@),
        },
{
    let i = crate::assoc::place_of(&schema.properties, prop);
    proof {
        crate::assoc::lemma_place_is(schema@.properties, prop@, i as int);
    }
    if i < schema.properties.len() {
        match &schema.properties[i].1 {
            Ok(datatype) => Ok(datatype.copy()),
            Err(e) => Err(Stop::Error(e.copy())),
        }
    } else {
        Err(Stop::Ask(Question::Property(prop.to_owned())))
    }
}

/// What has been said about a text as a value of a datatype.
pub open spec fn verdict(
    literals: Seq<(Seq<char>, DataTypeView, Result<(), ErrorView>)>,
    text: Seq<char>,
    datatype: DataTypeView,
) -> Option<Result<(), ErrorView>>
    decreases literals.len(),
{
    if literals.len() == 0 {
        None
    } else if literals[0].0 == text && literals[0].1 == datatype {
        Some(literals[0].2)
    } else {
        verdict(literals.drop_first(), text, datatype)
    }
}

/// A text as a value of a datatype, as far as it is known to be one.
pub open spec fn literal(schema: SchemaView, text: Seq<char>, datatype: DataTypeView) -> Result<
    PropValueView,
    StopView,
> {
    match verdict(schema.literals, text, datatype) {
        Some(Ok(_)) => Ok(PropValueView::Literal { text, datatype }),
        Some(Err(e)) => Err(StopView::Error(e)),
        None => Err(StopView::Ask(QuestionView::Literal { text, datatype })),
    }
}

/// What the parsing of a value comes to.
pub open spec fn outcome(r: Result<PropValue, Stop>) -> Result<PropValueView, StopView> {
    match r {
        Ok(v) => Ok(v@),
        Err(s) => Err(s@),
    }
}

/// A text as a value of a datatype, as far as it is known to be one.
fn make_literal(schema: &Schema, text: &str, datatype: DataType) -> (r: Result<PropValue, Stop>)
    ensures
        outcome(r) == literal(schema@, text@, datatype@),
{
    let mut i: usize = 0;
    assert(schema@.literals.skip(0) =~= schema@.literals);
    while i < schema.literals.len()
        invariant
            i <= schema.literals@.len(),
            verdict(schema@.literals, text@, datatype@) == verdict(
                schema@.literals.skip(i as int),
                text@,
                datatype@,
            ),
        decreases schema.literals@.len() - i,
    {
        let answer = &schema.literals[i];
        let ghost rest = schema@.literals.skip(i as int);
        assert(rest[0] == literal_answer(*answer));
        assert(rest.drop_first() =~= schema@.literals.skip(i + 1));
        if same(answer.text.as_str(), text) && answer.datatype.same(&datatype) {
            return match &answer.answer {
                Ok(_) => Ok(PropValue::Literal { text: text.to_owned(), datatype }),
                Err(e) => Err(Stop::Error(e.copy())),
            };
        }
        i += 1;
    }
    Err(Stop::Ask(Question::Literal { text: text.to_owned(), datatype }))
}

/// What is known while a value is parsed.
pub struct Known {
    pub schema: SchemaView,
    pub importer: Option<Seq<char>>,
}

/// What is known to the parser from its answers and options.
pub open spec fn known(schema: Schema, parse_opts: ParseOpts) -> Known {
    Known { schema: schema@, importer: crate::text::opt(parse_opts.importer) }
}

/// The error about a value of `prop` in the resource `subject`.
pub open spec fn wrong<T>(
    message: Seq<char>,
    subject: Option<Seq<char>>,
    prop: Seq<char>,
) -> Result<T, StopView> {
    Err(StopView::Error(crate::errors::unparsable(message, subject, Some(prop))))
}

/// How a truth value is written.
pub open spec fn bool_text(b: bool) -> Seq<char> {
    if b {
        "true"@
    } else {
        "false"@
    }
}

/// A value that has to be a text.
pub open spec fn text_value(
    known: Known,
    datatype: DataTypeView,
    val: Json,
    message: Seq<char>,
    subject: Option<Seq<char>>,
    prop: Seq<char>,
) -> Result<PropValueView, StopView> {
    match val {
        Json::Text(text) => literal(known.schema, text, datatype),
        _ => wrong(message, subject, prop),
    }
}

/// A value that has to be a number.
pub open spec fn number_value(
    known: Known,
    datatype: DataTypeView,
    val: Json,
    message: Seq<char>,
    subject: Option<Seq<char>>,
    prop: Seq<char>,
) -> Result<PropValueView, StopView> {
    match val {
        Json::Number(text) => literal(known.schema, text, datatype),
        _ => wrong(message, subject, prop),
    }
}

/// A document that has to be `{ type: "ydoc", data: <base64 string> }`.
pub open spec fn ydoc_value(
    known: Known,
    val: Json,
    subject: Option<Seq<char>>,
    prop: Seq<char>,
) -> Result<PropValueView, StopView> {
    match val {
        Json::Object(members) => match crate::assoc::lookup(members, "data"@) {
            Some(Json::Text(data)) => literal(known.schema, data, DataTypeView::YDoc),
            Some(_) => wrong(
                "Invalid value for YDoc, data field must be a string"@,
                subject,
                prop,
            ),
            None => wrong("Invalid value for YDoc, no data field"@, subject, prop),
        },
        _ => wrong(
            "Invalid value for YDoc, must be of shape { type: \"ydoc\", data: <base64 string> }"@,
            subject,
            prop,
        ),
    }
}

/// The value that `val` gives to the property `prop`, which has this datatype.
pub open spec fn value_of(
    known: Known,
    datatype: DataTypeView,
    prop: Seq<char>,
    val: Json,
    subject: Option<Seq<char>>,
) -> Result<PropValueView, StopView>
    decreases val, 0nat,
{
    match datatype {
        DataTypeView::AtomicUrl => match val {
            Json::Text(text) => match to_subject(text, prop, known.importer) {
                Ok(url) => literal(known.schema, url, datatype),
                Err(e) => Err(StopView::Error(e)),
            },
            Json::Object(members) => match anonymous(known, members, members.len(), subject) {
                Ok(propvals) => Ok(PropValueView::NestedResource(propvals)),
                Err(stop) => Err(stop),
            },
            _ => wrong("Invalid value for AtomicUrl, not a string or object"@, subject, prop),
        },
        DataTypeView::ResourceArray => match val {
            Json::Array(items) => match subresources(known, items, items.len(), prop, subject) {
                Ok(list) => Ok(PropValueView::ResourceArray(list)),
                Err(stop) => Err(stop),
            },
            _ => wrong("Invalid value for ResourceArray, not an array"@, subject, prop),
        },
        DataTypeView::String => match val {
            Json::Text(text) => Ok(PropValueView::Literal { text, datatype }),
            _ => wrong("Invalid value for String, not a string"@, subject, prop),
        },
        DataTypeView::Slug => text_value(
            known,
            datatype,
            val,
            "Invalid value for Slug, not a string"@,
            subject,
            prop,
        ),
        DataTypeView::Markdown => text_value(
            known,
            datatype,
            val,
            "Invalid value for Markdown, not a string"@,
            subject,
            prop,
        ),
        DataTypeView::Uri => text_value(
            known,
            datatype,
            val,
            "Invalid value for URI, not a string"@,
            subject,
            prop,
        ),
        DataTypeView::Date => text_value(
            known,
            datatype,
            val,
            "Invalid value for Date, not a string"@,
            subject,
            prop,
        ),
        DataTypeView::Boolean => match val {
            Json::Bool(b) => literal(known.schema, bool_text(b), datatype),
            _ => wrong("Invalid value for Boolean, not a boolean"@, subject, prop),
        },
        DataTypeView::Integer => number_value(
            known,
            datatype,
            val,
            "Invalid value for Integer, not a number"@,
            subject,
            prop,
        ),
        DataTypeView::Float => number_value(
            known,
            datatype,
            val,
            "Invalid value for Float, not a number"@,
            subject,
            prop,
        ),
        DataTypeView::Timestamp => number_value(
            known,
            datatype,
            val,
            "Invalid value for Timestamp, not a string"@,
            subject,
            prop,
        ),
        DataTypeView::JSON => Ok(PropValueView::Json(val)),
        DataTypeView::Unsupported(name) => wrong(
            "Unsupported datatype: "@ + name,
            subject,
            prop,
        ),
        DataTypeView::YDoc => ydoc_value(known, val, subject, prop),
    }
}

/// The address and the value of the property that a member of an object sets.
pub open spec fn propval(
    known: Known,
    key: Seq<char>,
    val: Json,
    subject: Option<Seq<char>>,
) -> Result<(Seq<char>, PropValueView), StopView>
    decreases val, 1nat,
{
    match to_subject(key, key, known.importer) {
        Err(e) => Err(StopView::Error(e)),
        Ok(prop) => match datatype_of(known.schema, prop) {
            Err(stop) => Err(stop),
            Ok(datatype) => match value_of(known, datatype, prop, val, subject) {
                Err(stop) => Err(stop),
                Ok(value) => Ok((prop, value)),
            },
        },
    }
}

/// Whether a key names a resource, and so cannot stand in one without a name.
pub open spec fn naming_key(key: Seq<char>) -> bool {
    key == "@id"@ || key == urls::LOCAL_ID@
}

/// The properties that the first `n` members of an object without a name set.
pub open spec fn anonymous(
    known: Known,
    members: Seq<(Seq<char>, Json)>,
    n: nat,
    subject: Option<Seq<char>>,
) -> Result<Seq<(Seq<char>, PropValueView)>, StopView>
    decreases members, n,
{
    if n == 0 || n > members.len() {
        Ok(Seq::empty())
    } else {
        let (key, val) = members[n - 1];
        match anonymous(known, members, (n - 1) as nat, subject) {
            Err(stop) => Err(stop),
            Ok(propvals) => if naming_key(key) {
                wrong(
                    "`@id` and `localId` are not allowed in anonymous resources"@,
                    subject,
                    key,
                )
            } else {
                match propval(known, key, val, subject) {
                    Err(stop) => Err(stop),
                    Ok((prop, value)) => Ok(crate::assoc::put(propvals, prop, value)),
                }
            },
        }
    }
}

/// An element of a list of resources.
pub open spec fn subresource(
    known: Known,
    item: Json,
    prop: Seq<char>,
    subject: Option<Seq<char>>,
) -> Result<SubResourceView, StopView>
    decreases item, 0nat,
{
    match item {
        Json::Text(text) => match to_subject(text, prop, known.importer) {
            Ok(url) => Ok(SubResourceView::Subject(url)),
            Err(e) => Err(StopView::Error(e)),
        },
        Json::Object(members) => match anonymous(known, members, members.len(), subject) {
            Ok(propvals) => Ok(SubResourceView::Nested(propvals)),
            Err(stop) => Err(stop),
        },
        _ => wrong(
            "Found non-string item in resource array: "@ + crate::json_text::json_text(
                crate::json_text::settle(item),
            ) + "."@,
            subject,
            prop,
        ),
    }
}

/// The first `n` elements of a list of resources.
pub open spec fn subresources(
    known: Known,
    items: Seq<Json>,
    n: nat,
    prop: Seq<char>,
    subject: Option<Seq<char>>,
) -> Result<Seq<SubResourceView>, StopView>
    decreases items, n,
{
    if n == 0 || n > items.len() {
        Ok(Seq::empty())
    } else {
        match subresources(known, items, (n - 1) as nat, prop, subject) {
            Err(stop) => Err(stop),
            Ok(list) => match subresource(known, items[n - 1], prop, subject) {
                Err(stop) => Err(stop),
                Ok(item) => Ok(list.push(item)),
            },
        }
    }
}

/// The error about a value of `prop` in the resource `subject`.
fn bad_value(message: &str, subject: Option<&str>, prop: &str) -> (r: Stop)
    ensures
        Err::<(), StopView>(r@) == wrong::<()>(message@, crate::text::opt_str(subject), prop@),
{
    Stop::Error(AtomicError::parse_error(message, subject, Some(prop)))
}

/// What the parsing of a property comes to.
pub open spec fn propval_outcome(r: Result<(String, PropValue), Stop>) -> Result<
    (Seq<char>, PropValueView),
    StopView,
> {
    match r {
        Ok((prop, value)) => Ok((prop@, value@)),
        Err(s) => Err(s@),
    }
}

/// What the parsing of a resource without a name comes to.
pub open spec fn propvals_outcome(r: Result<PropVals, Stop>) -> Result<
    Seq<(Seq<char>, PropValueView)>,
    StopView,
> {
    match r {
        Ok(propvals) => Ok(crate::values::propvals_view(propvals@)),
        Err(s) => Err(s@),
    }
}

/// What the parsing of an element of a list of resources comes to.
pub open spec fn subresource_outcome(r: Result<SubResource, Stop>) -> Result<
    SubResourceView,
    StopView,
> {
    match r {
        Ok(item) => Ok(item@),
        Err(s) => Err(s@),
    }
}

/// A value that has to be a text.
fn parse_text(
    val: &JsonValue,
    datatype: DataType,
    message: &str,
    subject: Option<&str>,
    prop: &str,
    schema: &Schema,
    parse_opts: &ParseOpts,
) -> (r: Result<PropValue, Stop>)
    ensures
        outcome(r) == text_value(
            known(*schema, *parse_opts),
            datatype@,
            val@,
            message@,
            crate::text::opt_str(subject),
            prop@,
        ),
{
    match val {
        JsonValue::Text(text) => make_literal(schema, text.as_str(), datatype),
        _ => Err(bad_value(message, subject, prop)),
    }
}

/// A value that has to be a number.
fn parse_number(
    val: &JsonValue,
    datatype: DataType,
    message: &str,
    subject: Option<&str>,
    prop: &str,
    schema: &Schema,
    parse_opts: &ParseOpts,
) -> (r: Result<PropValue, Stop>)
    ensures
        outcome(r) == number_value(
            known(*schema, *parse_opts),
            datatype@,
            val@,
            message@,
            crate::text::opt_str(subject),
            prop@,
        ),
{
    match val {
        JsonValue::Number(text) => make_literal(schema, text.as_str(), datatype),
        _ => Err(bad_value(message, subject, prop)),
    }
}

/// A document that has to be `{ type: "ydoc", data: <base64 string> }`.
fn parse_ydoc(
    val: &JsonValue,
    subject: Option<&str>,
    prop: &str,
    schema: &Schema,
    parse_opts: &ParseOpts,
) -> (r: Result<PropValue, Stop>)
    ensures
        outcome(r) == ydoc_value(
            known(*schema, *parse_opts),
            val@,
            crate::text::opt_str(subject),
            prop@,
        ),
{
    broadcast use crate::json::lemma_view_containers;

    match val {
        JsonValue::Object(members) => match crate::json::get_member(members, "data") {
            Some(JsonValue::Text(data)) => make_literal(schema, data.as_str(), DataType::YDoc),
            Some(_) => Err(
                bad_value("Invalid value for YDoc, data field must be a string", subject, prop),
            ),
            None => Err(bad_value("Invalid value for YDoc, no data field", subject, prop)),
        },
        _ => Err(
            bad_value(
                "Invalid value for YDoc, must be of shape { type: \"ydoc\", data: <base64 string> }",
                subject,
                prop,
            ),
        ),
    }
}

/// The value that `val` gives to the property `prop`, which has this datatype.
fn parse_value(
    datatype: DataType,
    prop: &str,
    val: &JsonValue,
    subject: Option<&str>,
    schema: &Schema,
    parse_opts: &ParseOpts,
) -> (r: Result<PropValue, Stop>)
    ensures
        outcome(r) == value_of(
            known(*schema, *parse_opts),
            datatype@,
            prop@,
            val@,
            crate::text::opt_str(subject),
        ),
    decreases *val, 0nat,
{
    broadcast use crate::json::lemma_view_containers;

    match datatype {
        DataType::AtomicUrl => match val {
            JsonValue::Text(text) => match try_to_subject(text.as_str(), prop, parse_opts) {
                Ok(url) => make_literal(schema, url.as_str(), DataType::AtomicUrl),
                Err(e) => Err(Stop::Error(e)),
            },
            JsonValue::Object(members) => {
                assert(decreases_to!(*val => val->Object_0));
                match parse_anonymous_resource(members, subject, schema, parse_opts) {
                    Ok(propvals) => Ok(PropValue::NestedResource(propvals)),
                    Err(stop) => Err(stop),
                }
            },
            _ => Err(
                bad_value("Invalid value for AtomicUrl, not a string or object", subject, prop),
            ),
        },
        DataType::ResourceArray => match val {
            JsonValue::Array(items) => {
                assert(decreases_to!(*val => val->Array_0));
                match parse_subresources(items, prop, subject, schema, parse_opts) {
                    Ok(list) => Ok(PropValue::ResourceArray(list)),
                    Err(stop) => Err(stop),
                }
            },
            _ => Err(bad_value("Invalid value for ResourceArray, not an array", subject, prop)),
        },
        DataType::String => match val {
            JsonValue::Text(text) => Ok(
                PropValue::Literal { text: text.clone(), datatype: DataType::String },
            ),
            _ => Err(bad_value("Invalid value for String, not a string", subject, prop)),
        },
        DataType::Slug => parse_text(
            val,
            DataType::Slug,
            "Invalid value for Slug, not a string",
            subject,
            prop,
            schema,
            parse_opts,
        ),
        DataType::Markdown => parse_text(
            val,
            DataType::Markdown,
            "Invalid value for Markdown, not a string",
            subject,
            prop,
            schema,
            parse_opts,
        ),
        DataType::Uri => parse_text(
            val,
            DataType::Uri,
            "Invalid value for URI, not a string",
            subject,
            prop,
            schema,
            parse_opts,
        ),
        DataType::Date => parse_text(
            val,
            DataType::Date,
            "Invalid value for Date, not a string",
            subject,
            prop,
            schema,
            parse_opts,
        ),
        DataType::Boolean => match val {
            JsonValue::Bool(b) => make_literal(
                schema,
                if *b {
                    "true"
                } else {
                    "false"
                },
                DataType::Boolean,
            ),
            _ => Err(bad_value("Invalid value for Boolean, not a boolean", subject, prop)),
        },
        DataType::Integer => parse_number(
            val,
            DataType::Integer,
            "Invalid value for Integer, not a number",
            subject,
            prop,
            schema,
            parse_opts,
        ),
        DataType::Float => parse_number(
            val,
            DataType::Float,
            "Invalid value for Float, not a number",
            subject,
            prop,
            schema,
            parse_opts,
        ),
        DataType::Timestamp => parse_number(
            val,
            DataType::Timestamp,
            "Invalid value for Timestamp, not a string",
            subject,
            prop,
            schema,
            parse_opts,
        ),
        DataType::JSON => Ok(PropValue::Json(val.copy())),
        DataType::Unsupported(name) => {
            let message = cat2("Unsupported datatype: ", name.as_str());
            Err(bad_value(message.as_str(), subject, prop))
        },
        DataType::YDoc => parse_ydoc(val, subject, prop, schema, parse_opts),
    }
}

/// The address and the value of the property that a member of an object sets.
pub fn parse_propval(
    key: &str,
    val: &JsonValue,
    subject: Option<&str>,
    schema: &Schema,
    parse_opts: &ParseOpts,
) -> (r: Result<(String, PropValue), Stop>)
    ensures
        propval_outcome(r) == propval(
            known(*schema, *parse_opts),
            key@,
            val@,
            crate::text::opt_str(subject),
        ),
    decreases *val, 1nat,
{
    match try_to_subject(key, key, parse_opts) {
        Err(e) => Err(Stop::Error(e)),
        Ok(prop) => match get_datatype(schema, prop.as_str()) {
            Err(stop) => Err(stop),
            Ok(datatype) => match parse_value(
                datatype,
                prop.as_str(),
                val,
                subject,
                schema,
                parse_opts,
            ) {
                Err(stop) => Err(stop),
                Ok(value) => Ok((prop, value)),
            },
        },
    }
}

/// Whether a key names a resource, and so cannot stand in one without a name.
fn is_naming_key(key: &str) -> (r: bool)
    ensures
        r == naming_key(key@),
{
    same(key, "@id") || same(key, urls::LOCAL_ID)
}

/// The properties of a resource without a name.
pub fn parse_anonymous_resource(
    members: &Vec<(String, JsonValue)>,
    subject: Option<&str>,
    schema: &Schema,
    parse_opts: &ParseOpts,
) -> (r: Result<PropVals, Stop>)
    ensures
        propvals_outcome(r) == anonymous(
            known(*schema, *parse_opts),
            crate::json::members_view(members@),
            members@.len(),
            crate::text::opt_str(subject),
        ),
    decreases members@, members@.len(),
{
    let mut propvals: PropVals = Vec::new();
    let ghost all = crate::json::members_view(members@);
    let mut i: usize = 0;
    assert(crate::values::propvals_view(propvals@) =~= Seq::empty());
    while i < members.len()
        invariant
            i <= members@.len(),
            all == crate::json::members_view(members@),
            anonymous(
                known(*schema, *parse_opts),
                all,
                i as nat,
                crate::text::opt_str(subject),
            ) == propvals_outcome(Ok(propvals)),
        decreases members@.len() - i,
    {
        let key = members[i].0.as_str();
        assert(all[i as int] == (members@[i as int].0@, members@[i as int].1@));
        if is_naming_key(key) {
            proof {
                lemma_anonymous_stops(known(*schema, *parse_opts), all, (i + 1) as nat, crate::text::opt_str(subject));
            }
            return Err(
                bad_value(
                    "`@id` and `localId` are not allowed in anonymous resources",
                    subject,
                    key,
                ),
            );
        }
        assert(decreases_to!(members@ => members@[i as int]));
        match parse_propval(key, &members[i].1, subject, schema, parse_opts) {
            Err(stop) => {
                proof {
                    lemma_anonymous_stops(known(*schema, *parse_opts), all, (i + 1) as nat, crate::text::opt_str(subject));
                }
                return Err(stop);
            },
            Ok((prop, value)) => {
                crate::values::put_propval(&mut propvals, prop, value);
            },
        }
        i += 1;
    }
    Ok(propvals)
}

/// Where the first `n` members of an object stop the parser, all of them do.
proof fn lemma_anonymous_stops(
    known: Known,
    members: Seq<(Seq<char>, Json)>,
    n: nat,
    subject: Option<Seq<char>>,
)
    requires
        n <= members.len(),
        anonymous(known, members, n, subject) is Err,
    ensures
        anonymous(known, members, members.len(), subject) == anonymous(known, members, n, subject),
    decreases members.len() - n,
{
    if n < members.len() {
        lemma_anonymous_stops(known, members, n + 1, subject);
    }
}

/// An element of a list of resources.
fn parse_subresource(
    item: &JsonValue,
    prop: &str,
    subject: Option<&str>,
    schema: &Schema,
    parse_opts: &ParseOpts,
) -> (r: Result<SubResource, Stop>)
    ensures
        subresource_outcome(r) == subresource(
            known(*schema, *parse_opts),
            item@,
            prop@,
            crate::text::opt_str(subject),
        ),
    decreases *item, 0nat,
{
    broadcast use crate::json::lemma_view_containers;

    match item {
        JsonValue::Text(text) => match try_to_subject(text.as_str(), prop, parse_opts) {
            Ok(url) => Ok(SubResource::Subject(url)),
            Err(e) => Err(Stop::Error(e)),
        },
        JsonValue::Object(members) => {
            assert(decreases_to!(*item => item->Object_0));
            match parse_anonymous_resource(members, subject, schema, parse_opts) {
                Ok(propvals) => Ok(SubResource::Nested(propvals)),
                Err(stop) => Err(stop),
            }
        },
        _ => {
            let text = crate::json_text::show_json(item);
            let message = cat3("Found non-string item in resource array: ", text.as_str(), ".");
            Err(bad_value(message.as_str(), subject, prop))
        },
    }
}

/// What the parsing of a list of resources comes to.
pub open spec fn subresources_outcome(r: Result<Vec<SubResource>, Stop>) -> Result<
    Seq<SubResourceView>,
    StopView,
> {
    match r {
        Ok(list) => Ok(crate::values::subresources_view(list@)),
        Err(s) => Err(s@),
    }
}

/// A list of resources.
fn parse_subresources(
    items: &Vec<JsonValue>,
    prop: &str,
    subject: Option<&str>,
    schema: &Schema,
    parse_opts: &ParseOpts,
) -> (r: Result<Vec<SubResource>, Stop>)
    ensures
        subresources_outcome(r) == subresources(
            known(*schema, *parse_opts),
            crate::json::items_view(items@),
            items@.len(),
            prop@,
            crate::text::opt_str(subject),
        ),
    decreases items@, items@.len(),
{
    let mut list: Vec<SubResource> = Vec::new();
    let ghost all = crate::json::items_view(items@);
    let mut i: usize = 0;
    assert(crate::values::subresources_view(list@) =~= Seq::empty());
    while i < items.len()
        invariant
            i <= items@.len(),
            all == crate::json::items_view(items@),
            subresources(
                known(*schema, *parse_opts),
                all,
                i as nat,
                prop@,
                crate::text::opt_str(subject),
            ) == subresources_outcome(Ok(list)),
        decreases items@.len() - i,
    {
        assert(all[i as int] == items@[i as int]@);
        assert(decreases_to!(items@ => items@[i as int]));
        match parse_subresource(&items[i], prop, subject, schema, parse_opts) {
            Err(stop) => {
                proof {
                    lemma_subresources_stop(known(*schema, *parse_opts), all, (i + 1) as nat, prop@, crate::text::opt_str(subject));
                }
                return Err(stop);
            },
            Ok(item) => {
                let ghost before = crate::values::subresources_view(list@);
                list.push(item);
                assert(crate::values::subresources_view(list@) =~= before.push(item@));
            },
        }
        i += 1;
    }
    Ok(list)
}

/// Where the first `n` elements of a list stop the parser, all of them do.
proof fn lemma_subresources_stop(
    known: Known,
    items: Seq<Json>,
    n: nat,
    prop: Seq<char>,
    subject: Option<Seq<char>>,
)
    requires
        n <= items.len(),
        subresources(known, items, n, prop, subject) is Err,
    ensures
        subresources(known, items, items.len(), prop, subject) == subresources(
            known,
            items,
            n,
            prop,
            subject,
        ),
    decreases items.len() - n,
{
    if n < items.len() {
        lemma_subresources_stop(known, items, n + 1, prop, subject);
    }
}

/// A resource of which some members have been parsed.
pub struct Draft {
    pub subject: Option<String>,
    pub propvals: PropVals,
}

/// What a [Draft] says.
pub struct DraftView {
    pub subject: Option<Seq<char>>,
    pub propvals: Seq<(Seq<char>, PropValueView)>,
}

impl View for Draft {
    type V = DraftView;

    open spec fn view(&self) -> DraftView {
        DraftView {
            subject: crate::text::opt(self.subject),
            propvals: crate::values::propvals_view(self.propvals@),
        }
    }
}

/// What a member of a resource does to the draft. `fixed` says that the address of the resource
/// was given from outside.
pub open spec fn draft_step(
    known: Known,
    fixed: bool,
    draft: DraftView,
    key: Seq<char>,
    val: Json,
) -> Result<DraftView, StopView> {
    if key == "@id"@ {
        if fixed {
            wrong(
                "`@id` is not allowed in a resource with server generated subject."@,
                draft.subject,
                key,
            )
        } else {
            match val {
                Json::Text(id) => if valid_url(id) {
                    Ok(DraftView { subject: Some(id), propvals: draft.propvals })
                } else {
                    wrong(
                        "Unable to parse @id "@ + id + ": "@ + bad_url(id).message,
                        draft.subject,
                        key,
                    )
                },
                _ => wrong("@id must be a string"@, draft.subject, key),
            }
        }
    } else if key == urls::LOCAL_ID@ && known.importer is Some {
        if fixed {
            wrong(
                "`@id` is not allowed in a resource with server generated subject."@,
                draft.subject,
                key,
            )
        } else {
            match val {
                Json::Text(id) => Ok(
                    DraftView {
                        subject: Some(local_subject(known.importer->0, id)),
                        propvals: draft.propvals,
                    },
                ),
                _ => wrong(
                    "`localId` must be a string"@,
                    Some(crate::json_text::json_text(crate::json_text::settle(val))),
                    key,
                ),
            }
        }
    } else {
        match propval(known, key, val, draft.subject) {
            Err(stop) => Err(stop),
            Ok((prop, value)) => Ok(
                DraftView {
                    subject: draft.subject,
                    propvals: crate::assoc::put(draft.propvals, prop, value),
                },
            ),
        }
    }
}

/// The draft that the first `n` members of a resource give.
pub open spec fn draft_of(
    known: Known,
    fixed: Option<Seq<char>>,
    members: Seq<(Seq<char>, Json)>,
    n: nat,
) -> Result<DraftView, StopView>
    decreases n,
{
    if n == 0 || n > members.len() {
        Ok(DraftView { subject: fixed, propvals: Seq::empty() })
    } else {
        match draft_of(known, fixed, members, (n - 1) as nat) {
            Err(stop) => Err(stop),
            Ok(draft) => draft_step(
                known,
                fixed is Some,
                draft,
                members[n - 1].0,
                members[n - 1].1,
            ),
        }
    }
}

/// The properties of a finished draft: those without a parent get the importer for one.
pub open spec fn with_parent(
    propvals: Seq<(Seq<char>, PropValueView)>,
    importer: Option<Seq<char>>,
) -> Seq<(Seq<char>, PropValueView)> {
    match importer {
        Some(importer) => if crate::assoc::lookup(propvals, urls::PARENT@) is None {
            crate::assoc::put(
                propvals,
                urls::PARENT@,
                PropValueView::Literal { text: importer, datatype: DataTypeView::AtomicUrl },
            )
        } else {
            propvals
        },
        None => propvals,
    }
}

/// The resource that an object describes. `fixed` is its address, where it is given from outside.
pub open spec fn resource_of(
    known: Known,
    fixed: Option<Seq<char>>,
    members: Seq<(Seq<char>, Json)>,
) -> Result<ResourceView, StopView> {
    match draft_of(known, fixed, members, members.len()) {
        Err(stop) => Err(stop),
        Ok(draft) => match draft.subject {
            Some(subject) => Ok(
                ResourceView { subject, propvals: with_parent(draft.propvals, known.importer) },
            ),
            None => Err(
                StopView::Error(
                    crate::errors::unparsable("No @id or localId found in resource"@, None, None),
                ),
            ),
        },
    }
}

/// What the parsing of a resource comes to.
pub open spec fn resource_outcome(r: Result<Resource, Stop>) -> Result<ResourceView, StopView> {
    match r {
        Ok(resource) => Ok(resource@),
        Err(s) => Err(s@),
    }
}

/// The resource that an object describes.
pub fn parse_json_ad_map_to_resource(
    json: &Vec<(String, JsonValue)>,
    overwrite_subject: Option<String>,
    schema: &Schema,
    parse_opts: &ParseOpts,
) -> (r: Result<Resource, Stop>)
    ensures
        resource_outcome(r) == resource_of(
            known(*schema, *parse_opts),
            crate::text::opt(overwrite_subject),
            crate::json::members_view(json@),
        ),
{
    let fixed = overwrite_subject.is_some();
    let ghost given = crate::text::opt(overwrite_subject);
    let ghost all = crate::json::members_view(json@);
    let ghost k = known(*schema, *parse_opts);
    let mut draft = Draft { subject: overwrite_subject, propvals: Vec::new() };
    assert(draft@.propvals =~= Seq::empty());
    let mut i: usize = 0;
    while i < json.len()
        invariant
            i <= json@.len(),
            fixed == given is Some,
            given == crate::text::opt(overwrite_subject),
            all == crate::json::members_view(json@),
            k == known(*schema, *parse_opts),
            draft_of(k, given, all, i as nat) == Ok::<DraftView, StopView>(draft@),
        decreases json@.len() - i,
    {
        assert(all[i as int] == (json@[i as int].0@, json@[i as int].1@));
        match parse_member(
            draft,
            fixed,
            json[i].0.as_str(),
            &json[i].1,
            schema,
            parse_opts,
        ) {
            Err(stop) => {
                proof {
                    lemma_draft_stops(k, given, all, (i + 1) as nat);
                }
                return Err(stop);
            },
            Ok(next) => {
                draft = next;
            },
        }
        i += 1;
    }
    let Draft { subject, mut propvals } = draft;
    if let Some(importer) = &parse_opts.importer {
        if crate::values::get_propval(&propvals, urls::PARENT).is_none() {
            crate::values::put_propval(
                &mut propvals,
                urls::PARENT.to_owned(),
                PropValue::Literal { text: importer.clone(), datatype: DataType::AtomicUrl },
            );
        }
    }
    match subject {
        Some(subject) => Ok(Resource { subject, propvals }),
        None => Err(
            Stop::Error(
                AtomicError::parse_error("No @id or localId found in resource", None, None),
            ),
        ),
    }
}

/// What the parsing of a member of a resource comes to.
pub open spec fn draft_outcome(r: Result<Draft, Stop>) -> Result<DraftView, StopView> {
    match r {
        Ok(draft) => Ok(draft@),
        Err(s) => Err(s@),
    }
}

/// Parses one member of a resource.
fn parse_member(
    draft: Draft,
    fixed: bool,
    key: &str,
    val: &JsonValue,
    schema: &Schema,
    parse_opts: &ParseOpts,
) -> (r: Result<Draft, Stop>)
    ensures
        draft_outcome(r) == draft_step(known(*schema, *parse_opts), fixed, draft@, key@, val@),
{
    let Draft { subject, mut propvals } = draft;
    let about: Option<&str> = match &subject {
        Some(s) => Some(s.as_str()),
        None => None,
    };
    if same(key, "@id") {
        if fixed {
            return Err(
                bad_value(
                    "`@id` is not allowed in a resource with server generated subject.",
                    about,
                    key,
                ),
            );
        }
        return match val {
            JsonValue::Text(id) => match check_valid_url(id.as_str()) {
                Ok(_) => Ok(Draft { subject: Some(id.clone()), propvals }),
                Err(e) => {
                    let message = crate::text::cat4(
                        "Unable to parse @id ",
                        id.as_str(),
                        ": ",
                        e.message.as_str(),
                    );
                    Err(bad_value(message.as_str(), about, key))
                },
            },
            _ => Err(bad_value("@id must be a string", about, key)),
        };
    }
    if same(key, urls::LOCAL_ID) {
        if let Some(importer) = &parse_opts.importer {
            if fixed {
                return Err(
                    bad_value(
                        "`@id` is not allowed in a resource with server generated subject.",
                        about,
                        key,
                    ),
                );
            }
            return match val {
                JsonValue::Text(id) => Ok(
                    Draft {
                        subject: Some(generate_id_from_local_id(importer.as_str(), id.as_str())),
                        propvals,
                    },
                ),
                _ => {
                    let text = crate::json_text::show_json(val);
                    Err(bad_value("`localId` must be a string", Some(text.as_str()), key))
                },
            };
        }
    }
    match parse_propval(key, val, about, schema, parse_opts) {
        Err(stop) => Err(stop),
        Ok((prop, value)) => {
            crate::values::put_propval(&mut propvals, prop, value);
            Ok(Draft { subject, propvals })
        },
    }
}

/// Where the first `n` members of a resource stop the parser, all of them do.
proof fn lemma_draft_stops(
    known: Known,
    fixed: Option<Seq<char>>,
    members: Seq<(Seq<char>, Json)>,
    n: nat,
)
    requires
        n <= members.len(),
        draft_of(known, fixed, members, n) is Err,
    ensures
        draft_of(known, fixed, members, members.len()) == draft_of(known, fixed, members, n),
    decreases members.len() - n,
{
    if n < members.len() {
        lemma_draft_stops(known, fixed, members, n + 1);
    }
}

proof fn lemma_draft_distinct(
    known: Known,
    fixed: Option<Seq<char>>,
    members: Seq<(Seq<char>, Json)>,
    n: nat,
)
    requires
        draft_of(known, fixed, members, n) is Ok,
    ensures
        crate::assoc::distinct(draft_of(known, fixed, members, n)->Ok_0.propvals),
    decreases n,
{
    if 0 < n <= members.len() {
        lemma_draft_distinct(known, fixed, members, (n - 1) as nat);
        let draft = draft_of(known, fixed, members, (n - 1) as nat)->Ok_0;
        let (key, val) = members[n - 1];
        if let Ok((prop, value)) = propval(known, key, val, draft.subject) {
            crate::assoc::put_then_lookup(draft.propvals, prop, value, prop);
        }
    }
}

/// A parsed resource has each property once, and one that is imported has a parent.
pub proof fn imported_resources_have_a_parent(
    known: Known,
    fixed: Option<Seq<char>>,
    members: Seq<(Seq<char>, Json)>,
)
    requires
        resource_of(known, fixed, members) is Ok,
    ensures
        crate::assoc::distinct(resource_of(known, fixed, members)->Ok_0.propvals),
        known.importer is Some ==> crate::assoc::lookup(
            resource_of(known, fixed, members)->Ok_0.propvals,
            urls::PARENT@,
        ) is Some,
{
    lemma_draft_distinct(known, fixed, members, members.len());
    let propvals = draft_of(known, fixed, members, members.len())->Ok_0.propvals;
    if known.importer is Some {
        crate::assoc::put_then_lookup(
            propvals,
            urls::PARENT@,
            PropValueView::Literal {
                text: known.importer->0,
                datatype: DataTypeView::AtomicUrl,
            },
            urls::PARENT@,
        );
    }
}

proof fn lemma_draft_drops_local_id(
    known: Known,
    fixed: Option<Seq<char>>,
    members: Seq<(Seq<char>, Json)>,
    n: nat,
)
    requires
        known.importer is Some,
        n <= members.len(),
        forall|i: int|
            0 <= i < members.len() ==> local_subject(
                known.importer->0,
                (#[trigger] members[i]).0,
            ) != urls::LOCAL_ID@,
        draft_of(known, fixed, members, n) is Ok,
    ensures
        crate::assoc::lookup(
            draft_of(known, fixed, members, n)->Ok_0.propvals,
            urls::LOCAL_ID@,
        ) is None,
    decreases n,
{
    if n > 0 {
        lemma_draft_drops_local_id(known, fixed, members, (n - 1) as nat);
        let draft = draft_of(known, fixed, members, (n - 1) as nat)->Ok_0;
        let (key, val) = members[n - 1];
        if let Ok((prop, value)) = propval(known, key, val, draft.subject) {
            crate::assoc::put_then_lookup(draft.propvals, prop, value, urls::LOCAL_ID@);
        }
    }
}

/// The local id of an imported resource is not kept among its properties: it becomes its address.
/// Only a key that is itself a local id could bring it back, below an importer that is called like
/// the address of the property without its last part.
pub proof fn local_ids_are_not_kept(
    known: Known,
    fixed: Option<Seq<char>>,
    members: Seq<(Seq<char>, Json)>,
)
    requires
        known.importer is Some,
        forall|i: int|
            0 <= i < members.len() ==> local_subject(
                known.importer->0,
                (#[trigger] members[i]).0,
            ) != urls::LOCAL_ID@,
        resource_of(known, fixed, members) is Ok,
    ensures
        crate::assoc::lookup(
            resource_of(known, fixed, members)->Ok_0.propvals,
            urls::LOCAL_ID@,
        ) is None,
{
    reveal_strlit("https://atomicdata.dev/properties/parent");
    reveal_strlit("https://atomicdata.dev/properties/localId");
    assert(urls::PARENT@.len() != urls::LOCAL_ID@.len());
    lemma_draft_drops_local_id(known, fixed, members, members.len());
    let propvals = draft_of(known, fixed, members, members.len())->Ok_0.propvals;
    crate::assoc::put_then_lookup(
        propvals,
        urls::PARENT@,
        PropValueView::Literal { text: known.importer->0, datatype: DataTypeView::AtomicUrl },
        urls::LOCAL_ID@,
    );
}

/// The address that a member of an imported resource gives it.
pub open spec fn named_by(member: (Seq<char>, Json), importer: Option<Seq<char>>) -> Option<
    Seq<char>,
> {
    match member.1 {
        Json::Text(id) => if member.0 == "@id"@ {
            Some(id)
        } else if member.0 == urls::LOCAL_ID@ && importer is Some {
            Some(local_subject(importer->0, id))
        } else {
            None
        },
        _ => None,
    }
}

proof fn lemma_draft_subject(
    known: Known,
    fixed: Option<Seq<char>>,
    members: Seq<(Seq<char>, Json)>,
    i: int,
    n: nat,
)
    requires
        0 <= i < n <= members.len(),
        named_by(members[i], known.importer) is Some,
        forall|j: int|
            i < j < members.len() ==> named_by(#[trigger] members[j], known.importer) is None,
        draft_of(known, fixed, members, n) is Ok,
    ensures
        fixed is None,
        draft_of(known, fixed, members, n)->Ok_0.subject == named_by(members[i], known.importer),
    decreases n,
{
    if n > i + 1 {
        lemma_draft_subject(known, fixed, members, i, (n - 1) as nat);
        assert(named_by(members[n - 1], known.importer) is None);
    }
}

/// The address of a parsed resource is the one that was given from outside, and then no member
/// names it; or else the one that the last member which names it gives.
pub proof fn subject_of_a_resource(
    known: Known,
    fixed: Option<Seq<char>>,
    members: Seq<(Seq<char>, Json)>,
    i: int,
)
    requires
        0 <= i < members.len(),
        named_by(members[i], known.importer) is Some,
        forall|j: int|
            i < j < members.len() ==> named_by(#[trigger] members[j], known.importer) is None,
        resource_of(known, fixed, members) is Ok,
    ensures
        fixed is None,
        Some(resource_of(known, fixed, members)->Ok_0.subject) == named_by(
            members[i],
            known.importer,
        ),
{
    lemma_draft_subject(known, fixed, members, i, members.len());
}

proof fn lemma_given_subject(
    known: Known,
    fixed: Option<Seq<char>>,
    members: Seq<(Seq<char>, Json)>,
    n: nat,
)
    requires
        fixed is Some,
        draft_of(known, fixed, members, n) is Ok,
    ensures
        draft_of(known, fixed, members, n)->Ok_0.subject == fixed,
    decreases n,
{
    if 0 < n <= members.len() {
        lemma_given_subject(known, fixed, members, (n - 1) as nat);
    }
}

/// An address that is given from outside is the address of the resource.
pub proof fn given_subject_is_kept(
    known: Known,
    fixed: Option<Seq<char>>,
    members: Seq<(Seq<char>, Json)>,
)
    requires
        fixed is Some,
        resource_of(known, fixed, members) is Ok,
    ensures
        Some(resource_of(known, fixed, members)->Ok_0.subject) == fixed,
{
    lemma_given_subject(known, fixed, members, members.len());
}

/// A resource inside another one has neither an address nor a local id.
pub proof fn nested_resources_have_no_name(
    known: Known,
    members: Seq<(Seq<char>, Json)>,
    n: nat,
    subject: Option<Seq<char>>,
    i: int,
)
    requires
        0 <= i < n <= members.len(),
        anonymous(known, members, n, subject) is Ok,
    ensures
        members[i].0 != "@id"@,
        members[i].0 != urls::LOCAL_ID@,
    decreases n,
{
    if i < n - 1 {
        nested_resources_have_no_name(known, members, (n - 1) as nat, subject, i);
    }
}

/// Whether a question has not been answered.
pub open spec fn unanswered(schema: SchemaView, question: QuestionView) -> bool {
    match question {
        QuestionView::Property(url) => crate::assoc::lookup(schema.properties, url) is None,
        QuestionView::Literal { text, datatype } => verdict(
            schema.literals,
            text,
            datatype,
        ) is None,
    }
}

/// Whether the parser stopped with a question that has been answered.
pub open spec fn asks_again(schema: SchemaView, stop: StopView) -> bool {
    stop matches StopView::Ask(q) && !unanswered(schema, q)
}

proof fn lemma_value_asks_new(
    known: Known,
    datatype: DataTypeView,
    prop: Seq<char>,
    val: Json,
    subject: Option<Seq<char>>,
)
    ensures
        value_of(known, datatype, prop, val, subject) matches Err(stop) ==> !asks_again(
            known.schema,
            stop,
        ),
    decreases val, 0nat,
{
    match val {
        Json::Object(members) => {
            lemma_anonymous_asks_new(known, members, members.len(), subject);
        },
        Json::Array(items) => {
            lemma_subresources_ask_new(known, items, items.len(), prop, subject);
        },
        _ => {},
    }
}

proof fn lemma_propval_asks_new(
    known: Known,
    key: Seq<char>,
    val: Json,
    subject: Option<Seq<char>>,
)
    ensures
        propval(known, key, val, subject) matches Err(stop) ==> !asks_again(known.schema, stop),
    decreases val, 1nat,
{
    if let Ok(prop) = to_subject(key, key, known.importer) {
        if let Ok(datatype) = datatype_of(known.schema, prop) {
            lemma_value_asks_new(known, datatype, prop, val, subject);
        }
    }
}

proof fn lemma_anonymous_asks_new(
    known: Known,
    members: Seq<(Seq<char>, Json)>,
    n: nat,
    subject: Option<Seq<char>>,
)
    ensures
        anonymous(known, members, n, subject) matches Err(stop) ==> !asks_again(
            known.schema,
            stop,
        ),
    decreases members, n,
{
    if 0 < n <= members.len() {
        lemma_anonymous_asks_new(known, members, (n - 1) as nat, subject);
        lemma_propval_asks_new(known, members[n - 1].0, members[n - 1].1, subject);
    }
}

proof fn lemma_subresources_ask_new(
    known: Known,
    items: Seq<Json>,
    n: nat,
    prop: Seq<char>,
    subject: Option<Seq<char>>,
)
    ensures
        subresources(known, items, n, prop, subject) matches Err(stop) ==> !asks_again(
            known.schema,
            stop,
        ),
    decreases items, n,
{
    if 0 < n <= items.len() {
        lemma_subresources_ask_new(known, items, (n - 1) as nat, prop, subject);
        lemma_subresource_asks_new(known, items[n - 1], prop, subject);
    }
}

proof fn lemma_subresource_asks_new(
    known: Known,
    item: Json,
    prop: Seq<char>,
    subject: Option<Seq<char>>,
)
    ensures
        subresource(known, item, prop, subject) matches Err(stop) ==> !asks_again(
            known.schema,
            stop,
        ),
    decreases item, 0nat,
{
    if let Json::Object(members) = item {
        lemma_anonymous_asks_new(known, members, members.len(), subject);
    }
}

proof fn lemma_draft_asks_new(
    known: Known,
    fixed: Option<Seq<char>>,
    members: Seq<(Seq<char>, Json)>,
    n: nat,
)
    ensures
        draft_of(known, fixed, members, n) matches Err(stop) ==> !asks_again(known.schema, stop),
    decreases n,
{
    if 0 < n <= members.len() {
        lemma_draft_asks_new(known, fixed, members, (n - 1) as nat);
        if let Ok(draft) = draft_of(known, fixed, members, (n - 1) as nat) {
            lemma_propval_asks_new(known, members[n - 1].0, members[n - 1].1, draft.subject);
        }
    }
}

/// The parser asks only what it has not been told, so that it gets on with each answer.
pub proof fn questions_are_new(
    known: Known,
    fixed: Option<Seq<char>>,
    members: Seq<(Seq<char>, Json)>,
)
    ensures
        resource_of(known, fixed, members) matches Err(stop) ==> !asks_again(known.schema, stop),
{
    lemma_draft_asks_new(known, fixed, members, members.len());
}

proof fn lemma_verdict(
    literals: Seq<(Seq<char>, DataTypeView, Result<(), ErrorView>)>,
    text: Seq<char>,
    datatype: DataTypeView,
)
    ensures
        match verdict(literals, text, datatype) {
            Some(answer) => literals.contains((text, datatype, answer)),
            None => forall|i: int|
                0 <= i < literals.len() ==> !((#[trigger] literals[i]).0 == text && literals[i].1
                    == datatype),
        },
    decreases literals.len(),
{
    if literals.len() > 0 {
        let rest = literals.drop_first();
        if literals[0].0 == text && literals[0].1 == datatype {
            assert(literals[0] == (text, datatype, literals[0].2));
        } else {
            lemma_verdict(rest, text, datatype);
            match verdict(rest, text, datatype) {
                Some(answer) => {
                    let k = rest.index_of((text, datatype, answer));
                    assert(literals[k + 1] == (text, datatype, answer));
                },
                None => {
                    assert forall|i: int| 0 <= i < literals.len() implies !((
                    #[trigger] literals[i]).0 == text && literals[i].1 == datatype) by {
                        if i > 0 {
                            assert(rest[i - 1] == literals[i]);
                        }
                    }
                },
            }
        }
    }
}

/// Whether a text is known to be a value of a datatype: it has been said to be one, and nothing
/// else has been said about it.
pub open spec fn accepted(schema: SchemaView, text: Seq<char>, datatype: DataTypeView) -> bool {
    &&& exists|i: int|
        0 <= i < schema.literals.len() && (#[trigger] schema.literals[i]).0 == text
            && schema.literals[i].1 == datatype
    &&& forall|i: int|
        0 <= i < schema.literals.len() && (#[trigger] schema.literals[i]).0 == text
            && schema.literals[i].1 == datatype ==> schema.literals[i].2 is Ok
}

/// A text for a property with a datatype of texts becomes a value with exactly that text and that
/// datatype, and nothing else does.
pub proof fn texts_are_kept(
    known: Known,
    datatype: DataTypeView,
    prop: Seq<char>,
    val: Json,
    subject: Option<Seq<char>>,
)
    requires
        datatype is String || datatype is Slug || datatype is Markdown || datatype is Uri
            || datatype is Date,
    ensures
        value_of(known, datatype, prop, val, subject) matches Ok(value) ==> (value matches
            PropValueView::Literal { text, datatype: d } && d == datatype && val == Json::Text(
            text,
        )),
        val matches Json::Text(text) && (datatype is String || accepted(
            known.schema,
            text,
            datatype,
        )) ==> value_of(known, datatype, prop, val, subject) is Ok,
{
    if let Json::Text(text) = val {
        lemma_verdict(known.schema.literals, text, datatype);
    }
}

/// Different texts for a property with a datatype of texts never become the same value.
pub proof fn different_texts_are_different_values(
    known: Known,
    datatype: DataTypeView,
    prop: Seq<char>,
    a: Json,
    b: Json,
    subject: Option<Seq<char>>,
)
    requires
        datatype is String || datatype is Slug || datatype is Markdown || datatype is Uri
            || datatype is Date,
        a != b,
        value_of(known, datatype, prop, a, subject) is Ok,
    ensures
        value_of(known, datatype, prop, a, subject) != value_of(known, datatype, prop, b, subject),
{
    texts_are_kept(known, datatype, prop, a, subject);
    texts_are_kept(known, datatype, prop, b, subject);
}

/// A number for a property with a datatype of numbers becomes a value with exactly the digits of
/// the number, and nothing else does.
pub proof fn numbers_are_kept(
    known: Known,
    datatype: DataTypeView,
    prop: Seq<char>,
    val: Json,
    subject: Option<Seq<char>>,
)
    requires
        datatype is Integer || datatype is Float || datatype is Timestamp,
    ensures
        value_of(known, datatype, prop, val, subject) matches Ok(value) ==> (value matches
            PropValueView::Literal { text, datatype: d } && d == datatype && val == Json::Number(
            text,
        )),
        val matches Json::Number(text) && accepted(known.schema, text, datatype) ==> value_of(
            known,
            datatype,
            prop,
            val,
            subject,
        ) is Ok,
{
    if let Json::Number(text) = val {
        lemma_verdict(known.schema.literals, text, datatype);
    }
}

/// A truth value becomes the text that names it, and nothing else does.
pub proof fn truth_values_are_kept(
    known: Known,
    prop: Seq<char>,
    val: Json,
    subject: Option<Seq<char>>,
)
    ensures
        value_of(known, DataTypeView::Boolean, prop, val, subject) matches Ok(value) ==> (value
            matches PropValueView::Literal { text, datatype } && datatype is Boolean && ((val
            == Json::Bool(true) && text == "true"@) || (val == Json::Bool(false) && text
            == "false"@))),
        val == Json::Bool(true) && accepted(known.schema, "true"@, DataTypeView::Boolean)
            ==> value_of(known, DataTypeView::Boolean, prop, val, subject) is Ok,
        val == Json::Bool(false) && accepted(known.schema, "false"@, DataTypeView::Boolean)
            ==> value_of(known, DataTypeView::Boolean, prop, val, subject) is Ok,
{
    lemma_verdict(known.schema.literals, "true"@, DataTypeView::Boolean);
    lemma_verdict(known.schema.literals, "false"@, DataTypeView::Boolean);
}

/// A document is kept as it is where the property is for documents.
pub proof fn documents_are_kept(
    known: Known,
    prop: Seq<char>,
    val: Json,
    subject: Option<Seq<char>>,
)
    ensures
        value_of(known, DataTypeView::JSON, prop, val, subject) matches Ok(PropValueView::Json(
            kept,
        )) && kept == val,
{
}

/// A shared document is the text of the member called `data`, and nothing else is one.
pub proof fn shared_documents_are_their_data(
    known: Known,
    prop: Seq<char>,
    val: Json,
    subject: Option<Seq<char>>,
)
    ensures
        value_of(known, DataTypeView::YDoc, prop, val, subject) matches Ok(value) ==> (value
            matches PropValueView::Literal { text, datatype } && datatype is YDoc && (val matches
            Json::Object(members) && crate::assoc::lookup(members, "data"@) == Some(
            Json::Text(text),
        ))),
        val matches Json::Object(members) && (crate::assoc::lookup(members, "data"@) matches Some(
            Json::Text(text),
        ) && accepted(known.schema, text, DataTypeView::YDoc)) ==> value_of(
            known,
            DataTypeView::YDoc,
            prop,
            val,
            subject,
        ) is Ok,
{
    if let Json::Object(members) = val {
        if let Some(Json::Text(text)) = crate::assoc::lookup(members, "data"@) {
            lemma_verdict(known.schema.literals, text, DataTypeView::YDoc);
        }
    }
}

/// What an address stands for: one that starts with `http` for itself, and any other text for a
/// resource below the importer, without which it stands for none.
pub proof fn addresses_are_kept(
    text: Seq<char>,
    prop: Seq<char>,
    importer: Option<Seq<char>>,
)
    ensures
        "http"@.is_prefix_of(text) ==> to_subject(text, prop, importer) == Ok::<
            Seq<char>,
            ErrorView,
        >(text),
        !"http"@.is_prefix_of(text) && importer is Some ==> to_subject(text, prop, importer) == Ok::<
            Seq<char>,
            ErrorView,
        >(importer->0 + "/"@ + text),
        !"http"@.is_prefix_of(text) && importer is None ==> (to_subject(text, prop, importer)
            matches Err(e) && e.error_type is ParseError && e.property == Some(prop)),
{
}

/// Two local ids below one importer never stand for the same resource.
pub proof fn local_ids_do_not_clash(
    a: Seq<char>,
    b: Seq<char>,
    prop: Seq<char>,
    importer: Seq<char>,
)
    requires
        !"http"@.is_prefix_of(a),
        !"http"@.is_prefix_of(b),
        a != b,
    ensures
        to_subject(a, prop, Some(importer))->Ok_0 != to_subject(b, prop, Some(importer))->Ok_0,
{
    let left = importer + "/"@;
    assert((left + a).skip(left.len() as int) =~= a);
    assert((left + b).skip(left.len() as int) =~= b);
}

/// A text for a property with the datatype of addresses becomes the address that it stands for, an
/// object becomes a resource without a name, and nothing else parses.
pub proof fn links_are_kept(
    known: Known,
    prop: Seq<char>,
    val: Json,
    subject: Option<Seq<char>>,
)
    ensures
        value_of(known, DataTypeView::AtomicUrl, prop, val, subject) matches Ok(value) ==> match val {
            Json::Text(text) => value matches PropValueView::Literal { text: url, datatype }
                && datatype is AtomicUrl && (if "http"@.is_prefix_of(text) {
                url == text
            } else {
                known.importer is Some && url == known.importer->0 + "/"@ + text
            }),
            Json::Object(members) => value matches PropValueView::NestedResource(propvals)
                && anonymous(known, members, members.len(), subject) == Ok::<
                Seq<(Seq<char>, PropValueView)>,
                StopView,
            >(propvals),
            _ => false,
        },
        val matches Json::Text(text) && "http"@.is_prefix_of(text) && accepted(
            known.schema,
            text,
            DataTypeView::AtomicUrl,
        ) ==> value_of(known, DataTypeView::AtomicUrl, prop, val, subject) is Ok,
        val matches Json::Object(members) && anonymous(
            known,
            members,
            members.len(),
            subject,
        ) is Ok ==> value_of(known, DataTypeView::AtomicUrl, prop, val, subject) is Ok,
{
    if let Json::Text(text) = val {
        lemma_verdict(known.schema.literals, text, DataTypeView::AtomicUrl);
    }
}

proof fn lemma_subresources_kept(
    known: Known,
    items: Seq<Json>,
    n: nat,
    prop: Seq<char>,
    subject: Option<Seq<char>>,
    i: int,
)
    requires
        n <= items.len(),
        subresources(known, items, n, prop, subject) is Ok,
        0 <= i < n,
    ensures
        subresources(known, items, n, prop, subject)->Ok_0.len() == n,
        subresource(known, items[i], prop, subject) == Ok::<SubResourceView, StopView>(
            subresources(known, items, n, prop, subject)->Ok_0[i],
        ),
    decreases n,
{
    lemma_subresources_len(known, items, (n - 1) as nat, prop, subject);
    if i < n - 1 {
        lemma_subresources_kept(known, items, (n - 1) as nat, prop, subject, i);
    }
}

proof fn lemma_subresources_len(
    known: Known,
    items: Seq<Json>,
    n: nat,
    prop: Seq<char>,
    subject: Option<Seq<char>>,
)
    requires
        n <= items.len(),
        subresources(known, items, n, prop, subject) is Ok,
    ensures
        subresources(known, items, n, prop, subject)->Ok_0.len() == n,
    decreases n,
{
    if n > 0 {
        lemma_subresources_len(known, items, (n - 1) as nat, prop, subject);
    }
}

/// A list for a property with the datatype of lists of resources becomes a list with an element for
/// each of its elements, in their order: the address that a text stands for, or the resource
/// without a name that an object describes. Nothing else parses.
pub proof fn lists_are_kept(
    known: Known,
    prop: Seq<char>,
    val: Json,
    subject: Option<Seq<char>>,
    i: int,
)
    requires
        value_of(known, DataTypeView::ResourceArray, prop, val, subject) is Ok,
    ensures
        val matches Json::Array(items) && (value_of(
            known,
            DataTypeView::ResourceArray,
            prop,
            val,
            subject,
        )->Ok_0 matches PropValueView::ResourceArray(list) && list.len() == items.len() && (0 <= i
            < items.len() ==> match items[i] {
            Json::Text(text) => list[i] matches SubResourceView::Subject(url) && (if "http"@.is_prefix_of(
                text,
            ) {
                url == text
            } else {
                known.importer is Some && url == known.importer->0 + "/"@ + text
            }),
            Json::Object(members) => list[i] matches SubResourceView::Nested(propvals) && anonymous(
                known,
                members,
                members.len(),
                subject,
            ) == Ok::<Seq<(Seq<char>, PropValueView)>, StopView>(propvals),
            _ => false,
        })),
{
    let items = val->Array_0;
    lemma_subresources_len(known, items, items.len(), prop, subject);
    if 0 <= i < items.len() {
        lemma_subresources_kept(known, items, items.len(), prop, subject, i);
    }
}

proof fn lemma_lists_parse(
    known: Known,
    items: Seq<Json>,
    n: nat,
    prop: Seq<char>,
    subject: Option<Seq<char>>,
)
    requires
        n <= items.len(),
        forall|i: int|
            0 <= i < items.len() ==> ((#[trigger] items[i]) matches Json::Text(text) && (
            "http"@.is_prefix_of(text) || known.importer is Some)),
    ensures
        subresources(known, items, n, prop, subject) is Ok,
    decreases n,
{
    if n > 0 {
        lemma_lists_parse(known, items, (n - 1) as nat, prop, subject);
        assert(items[n - 1] is Text);
        assert(subresource(known, items[n - 1], prop, subject) is Ok);
    }
}

/// A list of addresses parses.
pub proof fn lists_of_addresses_parse(
    known: Known,
    items: Seq<Json>,
    prop: Seq<char>,
    subject: Option<Seq<char>>,
)
    requires
        forall|i: int|
            0 <= i < items.len() ==> ((#[trigger] items[i]) matches Json::Text(text) && (
            "http"@.is_prefix_of(text) || known.importer is Some)),
    ensures
        value_of(known, DataTypeView::ResourceArray, prop, Json::Array(items), subject) is Ok,
{
    lemma_lists_parse(known, items, items.len(), prop, subject);
}

/// A value that cannot be parsed is blamed on its property and on the resource it is in.
pub proof fn bad_values_are_blamed_on_their_property(
    known: Known,
    datatype: DataTypeView,
    prop: Seq<char>,
    val: Json,
    subject: Option<Seq<char>>,
)
    requires
        match datatype {
            DataTypeView::AtomicUrl => !(val is Text) && !(val is Object),
            DataTypeView::ResourceArray => !(val is Array),
            DataTypeView::Boolean => !(val is Bool),
            DataTypeView::Integer | DataTypeView::Float | DataTypeView::Timestamp => !(
            val is Number),
            DataTypeView::YDoc => !(val is Object),
            DataTypeView::JSON => false,
            DataTypeView::Unsupported(_) => true,
            _ => !(val is Text),
        },
    ensures
        value_of(known, datatype, prop, val, subject) matches Err(StopView::Error(e))
            && e.error_type is ParseError && e.subject == subject && e.property == Some(prop),
{
}

/// Whether a member of a resource sets a property, and does not name the resource.
pub open spec fn sets_property(known: Known, key: Seq<char>) -> bool {
    key != "@id"@ && !(key == urls::LOCAL_ID@ && known.importer is Some)
}

/// The address of the property that a key stands for, where it stands for one.
pub open spec fn stands_for(known: Known, key: Seq<char>, prop: Seq<char>) -> bool {
    if "http"@.is_prefix_of(key) {
        prop == key
    } else {
        known.importer is Some && prop == known.importer->0 + "/"@ + key
    }
}

/// Whether `value` is what `val` comes to as a value of a property that has the datatype which the
/// schema gives to it.
pub open spec fn comes_from(
    known: Known,
    prop: Seq<char>,
    val: Json,
    value: PropValueView,
) -> bool {
    exists|datatype: DataTypeView, subject: Option<Seq<char>>|
        crate::assoc::lookup(known.schema.properties, prop) == Some(
            Ok::<DataTypeView, ErrorView>(datatype),
        ) && #[trigger] value_of(known, datatype, prop, val, subject) == Ok::<
            PropValueView,
            StopView,
        >(value)
}

proof fn lemma_propval_comes_from(
    known: Known,
    key: Seq<char>,
    val: Json,
    subject: Option<Seq<char>>,
)
    requires
        propval(known, key, val, subject) is Ok,
    ensures
        stands_for(known, key, propval(known, key, val, subject)->Ok_0.0),
        comes_from(
            known,
            propval(known, key, val, subject)->Ok_0.0,
            val,
            propval(known, key, val, subject)->Ok_0.1,
        ),
{
    let prop = to_subject(key, key, known.importer)->Ok_0;
    let datatype = datatype_of(known.schema, prop)->Ok_0;
    assert(value_of(known, datatype, prop, val, subject) is Ok);
}

proof fn lemma_member_sets(
    known: Known,
    fixed: Option<Seq<char>>,
    members: Seq<(Seq<char>, Json)>,
    n: nat,
    i: int,
    prop: Seq<char>,
)
    requires
        0 <= i < n <= members.len(),
        draft_of(known, fixed, members, n) is Ok,
        sets_property(known, members[i].0),
        stands_for(known, members[i].0, prop),
        forall|j: int|
            i < j < members.len() && sets_property(known, (#[trigger] members[j]).0)
                ==> !stands_for(known, members[j].0, prop),
    ensures
        crate::assoc::lookup(
            draft_of(known, fixed, members, n)->Ok_0.propvals,
            prop,
        ) matches Some(value) && comes_from(known, prop, members[i].1, value),
    decreases n,
{
    let before = draft_of(known, fixed, members, (n - 1) as nat)->Ok_0;
    let (key, val) = members[n - 1];
    if sets_property(known, key) {
        lemma_propval_comes_from(known, key, val, before.subject);
        let (p, v) = propval(known, key, val, before.subject)->Ok_0;
        crate::assoc::put_then_lookup(before.propvals, p, v, prop);
        if i < n - 1 {
            lemma_member_sets(known, fixed, members, (n - 1) as nat, i, prop);
            assert(!stands_for(known, members[n - 1].0, prop));
        }
    } else {
        lemma_member_sets(known, fixed, members, (n - 1) as nat, i, prop);
    }
}

proof fn lemma_draft_from_members(
    known: Known,
    fixed: Option<Seq<char>>,
    members: Seq<(Seq<char>, Json)>,
    n: nat,
    prop: Seq<char>,
)
    requires
        n <= members.len(),
        draft_of(known, fixed, members, n) is Ok,
        crate::assoc::lookup(draft_of(known, fixed, members, n)->Ok_0.propvals, prop) is Some,
    ensures
        exists|i: int|
            0 <= i < n && sets_property(known, (#[trigger] members[i]).0) && stands_for(
                known,
                members[i].0,
                prop,
            ) && comes_from(
                known,
                prop,
                members[i].1,
                crate::assoc::lookup(
                    draft_of(known, fixed, members, n)->Ok_0.propvals,
                    prop,
                )->0,
            ),
    decreases n,
{
    if n == 0 {
        crate::assoc::lemma_place(Seq::<(Seq<char>, PropValueView)>::empty(), prop);
    } else {
        let before = draft_of(known, fixed, members, (n - 1) as nat)->Ok_0;
        let (key, val) = members[n - 1];
        if sets_property(known, key) {
            lemma_propval_comes_from(known, key, val, before.subject);
            let (p, v) = propval(known, key, val, before.subject)->Ok_0;
            crate::assoc::put_then_lookup(before.propvals, p, v, prop);
            if p != prop {
                lemma_draft_from_members(known, fixed, members, (n - 1) as nat, prop);
            } else {
                assert(sets_property(known, members[n - 1].0));
            }
        } else {
            lemma_draft_from_members(known, fixed, members, (n - 1) as nat, prop);
        }
    }
}

/// The last member of a resource that stands for a property gives it its value, read according to
/// the datatype that the property is known to have.
pub proof fn members_set_their_properties(
    known: Known,
    fixed: Option<Seq<char>>,
    members: Seq<(Seq<char>, Json)>,
    i: int,
    prop: Seq<char>,
)
    requires
        resource_of(known, fixed, members) is Ok,
        0 <= i < members.len(),
        sets_property(known, members[i].0),
        stands_for(known, members[i].0, prop),
        forall|j: int|
            i < j < members.len() && sets_property(known, (#[trigger] members[j]).0)
                ==> !stands_for(known, members[j].0, prop),
    ensures
        crate::assoc::lookup(resource_of(known, fixed, members)->Ok_0.propvals, prop) matches Some(
            value,
        ) && comes_from(known, prop, members[i].1, value),
{
    lemma_member_sets(known, fixed, members, members.len(), i, prop);
    let propvals = draft_of(known, fixed, members, members.len())->Ok_0.propvals;
    if known.importer is Some {
        crate::assoc::put_then_lookup(
            propvals,
            urls::PARENT@,
            PropValueView::Literal { text: known.importer->0, datatype: DataTypeView::AtomicUrl },
            prop,
        );
    }
}

/// A text for a property with a datatype of texts is the text of that property in the resource.
pub proof fn texts_of_a_resource_are_kept(
    known: Known,
    fixed: Option<Seq<char>>,
    members: Seq<(Seq<char>, Json)>,
    i: int,
    text: Seq<char>,
    datatype: DataTypeView,
)
    requires
        resource_of(known, fixed, members) is Ok,
        0 <= i < members.len(),
        members[i].1 == Json::Text(text),
        "http"@.is_prefix_of(members[i].0),
        sets_property(known, members[i].0),
        forall|j: int|
            i < j < members.len() && sets_property(known, (#[trigger] members[j]).0)
                ==> !stands_for(known, members[j].0, members[i].0),
        crate::assoc::lookup(known.schema.properties, members[i].0) == Some(
            Ok::<DataTypeView, ErrorView>(datatype),
        ),
        datatype is String || datatype is Slug || datatype is Markdown || datatype is Uri
            || datatype is Date,
    ensures
        crate::assoc::lookup(
            resource_of(known, fixed, members)->Ok_0.propvals,
            members[i].0,
        ) == Some(PropValueView::Literal { text, datatype }),
{
    let prop = members[i].0;
    members_set_their_properties(known, fixed, members, i, prop);
    let value = crate::assoc::lookup(
        resource_of(known, fixed, members)->Ok_0.propvals,
        prop,
    )->0;
    let (d, about) = choose|d: DataTypeView, about: Option<Seq<char>>|
        crate::assoc::lookup(known.schema.properties, prop) == Some(
            Ok::<DataTypeView, ErrorView>(d),
        ) && #[trigger] value_of(known, d, prop, members[i].1, about) == Ok::<
            PropValueView,
            StopView,
        >(value);
    texts_are_kept(known, d, prop, members[i].1, about);
}

/// Every property of a resource comes from one of its members, but for a parent that it gets from
/// the importer.
pub proof fn properties_come_from_members(
    known: Known,
    fixed: Option<Seq<char>>,
    members: Seq<(Seq<char>, Json)>,
    prop: Seq<char>,
)
    requires
        resource_of(known, fixed, members) is Ok,
        crate::assoc::lookup(resource_of(known, fixed, members)->Ok_0.propvals, prop) is Some,
    ensures
        ({
            let value = crate::assoc::lookup(
                resource_of(known, fixed, members)->Ok_0.propvals,
                prop,
            )->0;
            (prop == urls::PARENT@ && known.importer is Some && value == PropValueView::Literal {
                text: known.importer->0,
                datatype: DataTypeView::AtomicUrl,
            }) || exists|i: int|
                0 <= i < members.len() && sets_property(known, (#[trigger] members[i]).0)
                    && stands_for(known, members[i].0, prop) && comes_from(
                    known,
                    prop,
                    members[i].1,
                    value,
                )
        }),
{
    let propvals = draft_of(known, fixed, members, members.len())->Ok_0.propvals;
    if known.importer is Some {
        crate::assoc::put_then_lookup(
            propvals,
            urls::PARENT@,
            PropValueView::Literal { text: known.importer->0, datatype: DataTypeView::AtomicUrl },
            prop,
        );
    }
    if crate::assoc::lookup(propvals, prop) is Some {
        lemma_draft_from_members(known, fixed, members, members.len(), prop);
    }
}

/// A resource that is imported and does not say where it belongs belongs to the importer.
pub proof fn resources_without_a_parent_belong_to_the_importer(
    known: Known,
    fixed: Option<Seq<char>>,
    members: Seq<(Seq<char>, Json)>,
)
    requires
        resource_of(known, fixed, members) is Ok,
        known.importer is Some,
        forall|i: int|
            0 <= i < members.len() && sets_property(known, (#[trigger] members[i]).0)
                ==> !stands_for(known, members[i].0, urls::PARENT@),
    ensures
        crate::assoc::lookup(
            resource_of(known, fixed, members)->Ok_0.propvals,
            urls::PARENT@,
        ) == Some(
            PropValueView::Literal { text: known.importer->0, datatype: DataTypeView::AtomicUrl },
        ),
{
    imported_resources_have_a_parent(known, fixed, members);
    properties_come_from_members(known, fixed, members, urls::PARENT@);
}

proof fn lemma_unnamed_draft(
    known: Known,
    members: Seq<(Seq<char>, Json)>,
    n: nat,
)
    requires
        n <= members.len(),
        forall|i: int|
            0 <= i < members.len() ==> sets_property(known, (#[trigger] members[i]).0),
        draft_of(known, None, members, n) is Ok,
    ensures
        draft_of(known, None, members, n)->Ok_0.subject is None,
    decreases n,
{
    if n > 0 {
        lemma_unnamed_draft(known, members, (n - 1) as nat);
        assert(sets_property(known, members[n - 1].0));
    }
}

/// An object that names no resource, and is given no name, is none.
pub proof fn unnamed_resources_are_refused(known: Known, members: Seq<(Seq<char>, Json)>)
    requires
        forall|i: int|
            0 <= i < members.len() ==> sets_property(known, (#[trigger] members[i]).0),
    ensures
        resource_of(known, None, members) is Err,
{
    if draft_of(known, None, members, members.len()) is Ok {
        lemma_unnamed_draft(known, members, members.len());
    }
}

proof fn lemma_draft_ok(
    known: Known,
    fixed: Option<Seq<char>>,
    members: Seq<(Seq<char>, Json)>,
    n: nat,
)
    requires
        n <= members.len(),
        forall|i: int|
            0 <= i < members.len() ==> parses(known, fixed is Some, #[trigger] members[i]),
    ensures
        draft_of(known, fixed, members, n) is Ok,
        (exists|i: int| 0 <= i < n && !sets_property(known, (#[trigger] members[i]).0)) || fixed
            is Some ==> draft_of(known, fixed, members, n)->Ok_0.subject is Some,
    decreases n,
{
    if n > 0 {
        lemma_draft_ok(known, fixed, members, (n - 1) as nat);
        let draft = draft_of(known, fixed, members, (n - 1) as nat)->Ok_0;
        let (key, val) = members[n - 1];
        assert(parses(known, fixed is Some, members[n - 1]));
        if sets_property(known, key) {
            assert(propval(known, key, val, draft.subject) is Ok);
            if exists|i: int| 0 <= i < n && !sets_property(known, (#[trigger] members[i]).0) {
                let i = choose|i: int|
                    0 <= i < n && !sets_property(known, (#[trigger] members[i]).0);
                assert(0 <= i < n - 1);
            }
        }
    }
}

/// Whether a member of a resource parses: it is an address, a local id, or a property with a value
/// that parses. A resource that is given its address has no name of its own.
pub open spec fn parses(known: Known, fixed: bool, member: (Seq<char>, Json)) -> bool {
    if sets_property(known, member.0) {
        forall|subject: Option<Seq<char>>| #[trigger]
            propval(known, member.0, member.1, subject) is Ok
    } else {
        &&& !fixed
        &&& member.1 matches Json::Text(id) && (member.0 == "@id"@ ==> "http"@.is_prefix_of(id))
    }
}

/// An object whose members parse, and one of which names it, is a resource. So is one whose
/// members parse and that is given its address.
pub proof fn resources_parse_where_their_members_do(
    known: Known,
    fixed: Option<Seq<char>>,
    members: Seq<(Seq<char>, Json)>,
)
    requires
        forall|i: int|
            0 <= i < members.len() ==> parses(known, fixed is Some, #[trigger] members[i]),
        (exists|i: int| 0 <= i < members.len() && !sets_property(known, (#[trigger] members[i]).0))
            || fixed is Some,
    ensures
        resource_of(known, fixed, members) is Ok,
{
    lemma_draft_ok(known, fixed, members, members.len());
}

/// A member of a resource sets the property that its key stands for, where the schema knows that
/// property and the value parses.
pub proof fn known_properties_parse(
    known: Known,
    key: Seq<char>,
    val: Json,
    datatype: DataTypeView,
    prop: Seq<char>,
    subject: Option<Seq<char>>,
)
    requires
        stands_for(known, key, prop),
        crate::assoc::lookup(known.schema.properties, prop) == Some(
            Ok::<DataTypeView, ErrorView>(datatype),
        ),
        value_of(known, datatype, prop, val, subject) is Ok,
    ensures
        propval(known, key, val, subject) == Ok::<(Seq<char>, PropValueView), StopView>(
            (prop, value_of(known, datatype, prop, val, subject)->Ok_0),
        ),
{
}

proof fn lemma_anonymous_sets(
    known: Known,
    members: Seq<(Seq<char>, Json)>,
    n: nat,
    subject: Option<Seq<char>>,
    i: int,
    prop: Seq<char>,
)
    requires
        0 <= i < n <= members.len(),
        anonymous(known, members, n, subject) is Ok,
        stands_for(known, members[i].0, prop),
        forall|j: int|
            i < j < members.len() ==> !stands_for(known, (#[trigger] members[j]).0, prop),
    ensures
        crate::assoc::lookup(anonymous(known, members, n, subject)->Ok_0, prop) matches Some(value)
            && comes_from(known, prop, members[i].1, value),
    decreases n,
{
    let before = anonymous(known, members, (n - 1) as nat, subject)->Ok_0;
    let (key, val) = members[n - 1];
    lemma_propval_comes_from(known, key, val, subject);
    let (p, v) = propval(known, key, val, subject)->Ok_0;
    crate::assoc::put_then_lookup(before, p, v, prop);
    if i < n - 1 {
        lemma_anonymous_sets(known, members, (n - 1) as nat, subject, i, prop);
        assert(!stands_for(known, members[n - 1].0, prop));
    }
}

/// The last member of a resource without a name that stands for a property gives it its value,
/// read according to the datatype that the property is known to have.
pub proof fn nested_members_set_their_properties(
    known: Known,
    members: Seq<(Seq<char>, Json)>,
    subject: Option<Seq<char>>,
    i: int,
    prop: Seq<char>,
)
    requires
        anonymous(known, members, members.len(), subject) is Ok,
        0 <= i < members.len(),
        stands_for(known, members[i].0, prop),
        forall|j: int|
            i < j < members.len() ==> !stands_for(known, (#[trigger] members[j]).0, prop),
    ensures
        crate::assoc::lookup(
            anonymous(known, members, members.len(), subject)->Ok_0,
            prop,
        ) matches Some(value) && comes_from(known, prop, members[i].1, value),
{
    lemma_anonymous_sets(known, members, members.len(), subject, i, prop);
}

/// A property that nothing is known about is asked for, and one that could not be found stops the
/// parser with what was said about it.
pub proof fn unknown_properties_are_asked_for(
    known: Known,
    key: Seq<char>,
    val: Json,
    prop: Seq<char>,
    subject: Option<Seq<char>>,
)
    requires
        stands_for(known, key, prop),
    ensures
        crate::assoc::lookup(known.schema.properties, prop) is None ==> propval(
            known,
            key,
            val,
            subject,
        ) == Err::<(Seq<char>, PropValueView), StopView>(
            StopView::Ask(QuestionView::Property(prop)),
        ),
        crate::assoc::lookup(known.schema.properties, prop) matches Some(Err(e)) ==> propval(
            known,
            key,
            val,
            subject,
        ) == Err::<(Seq<char>, PropValueView), StopView>(StopView::Error(e)),
{
}

/// Reads a list of texts.
pub fn parse_json_array(string: &str) -> (r: AtomicResult<Vec<String>>)
    ensures
        match r {
            Ok(list) => crate::json_text::json_read(string@) == Ok::<Json, Seq<char>>(
                crate::json_text::text_array(crate::text::list(list@)),
            ),
            Err(e) => (forall|list: Seq<Seq<char>>|
                crate::json_text::json_read(string@) != Ok::<Json, Seq<char>>(
                    #[trigger] crate::json_text::text_array(list),
                )) && e@ == crate::errors::other(
                crate::json_text::json_texts_complaint(string@),
            ),
        },
{
    match crate::json_text::read_json_texts(string) {
        Ok(list) => Ok(list),
        Err(complaint) => Err(AtomicError::other_error(complaint)),
    }
}

/// The resource that the text of an object describes.
pub open spec fn resource_of_text(known: Known, text: Seq<char>) -> Result<ResourceView, StopView> {
    match crate::json_text::json_read(text) {
        Ok(Json::Object(members)) => resource_of(known, None, members),
        _ => Err(
            StopView::Error(
                crate::errors::other(crate::json_text::json_object_complaint(text)),
            ),
        ),
    }
}

/// Parses a single resource.
pub fn parse_json_ad_resource(string: &str, schema: &Schema, parse_opts: &ParseOpts) -> (r: Result<
    Resource,
    Stop,
>)
    ensures
        resource_outcome(r) == resource_of_text(known(*schema, *parse_opts), string@),
{
    match crate::json_text::read_json_object(string) {
        Ok(json) => parse_json_ad_map_to_resource(&json, None, schema, parse_opts),
        Err(complaint) => Err(Stop::Error(AtomicError::other_error(complaint))),
    }
}

/// The signature of a commit, where it has one that is a text.
pub open spec fn signature_of(members: Seq<(Seq<char>, Json)>) -> Option<Seq<char>> {
    match crate::assoc::lookup(members, urls::SIGNATURE@) {
        Some(Json::Text(signature)) => Some(signature),
        _ => None,
    }
}

/// The address of a commit: it is made from the address of the server and the signature.
pub open spec fn commit_address(server: Seq<char>, signature: Seq<char>) -> Seq<char> {
    server + "/commits/"@ + signature
}

/// The commit that the text of an object describes.
pub open spec fn commit_of_text(
    schema: SchemaView,
    text: Seq<char>,
    server_url: Result<Seq<char>, ErrorView>,
) -> Result<ResourceView, StopView> {
    match crate::json_text::json_read(text) {
        Ok(Json::Object(members)) => if crate::assoc::lookup(members, urls::SUBJECT@) is None {
            Err(StopView::Error(crate::errors::other("No subject field in Commit."@)))
        } else {
            match signature_of(members) {
                None => Err(
                    StopView::Error(crate::errors::other("No signature field in Commit."@)),
                ),
                Some(signature) => match server_url {
                    Err(e) => Err(StopView::Error(e)),
                    Ok(server) => resource_of(
                        Known { schema, importer: None },
                        Some(commit_address(server, signature)),
                        members,
                    ),
                },
            }
        },
        _ => Err(
            StopView::Error(
                crate::errors::other(crate::json_text::json_object_complaint(text)),
            ),
        ),
    }
}

/// What is known of an address.
pub open spec fn url_outcome(r: AtomicResult<String>) -> Result<Seq<char>, ErrorView> {
    match r {
        Ok(url) => Ok(url@),
        Err(e) => Err(e@),
    }
}

/// Parses an incoming commit. It has no `@id`: its address is made from its signature.
pub fn parse_json_ad_commit_resource(
    string: &str,
    server_url: AtomicResult<String>,
    schema: &Schema,
) -> (r: Result<Resource, Stop>)
    ensures
        resource_outcome(r) == commit_of_text(schema@, string@, url_outcome(server_url)),
{
    let json = match crate::json_text::read_json_object(string) {
        Ok(json) => json,
        Err(complaint) => {
            return Err(Stop::Error(AtomicError::other_error(complaint)));
        },
    };
    if crate::json::get_member(&json, urls::SUBJECT).is_none() {
        return Err(
            Stop::Error(AtomicError::other_error("No subject field in Commit.".to_owned())),
        );
    }
    match crate::json::get_member(&json, urls::SIGNATURE) {
        Some(JsonValue::Text(signature)) => match server_url {
            Err(e) => Err(Stop::Error(e)),
            Ok(server) => {
                let subject = cat3(server.as_str(), "/commits/", signature.as_str());
                parse_json_ad_map_to_resource(&json, Some(subject), schema, &ParseOpts::default())
            },
        },
        _ => Err(
            Stop::Error(AtomicError::other_error("No signature field in Commit.".to_owned())),
        ),
    }
}

/// A commit that parses is about a resource, and has the address that is made from the address of
/// the server and its signature. It has the properties that the members of its text set.
pub proof fn commits_are_named_by_their_signature(
    schema: SchemaView,
    text: Seq<char>,
    server: Seq<char>,
)
    requires
        commit_of_text(schema, text, Ok(server)) is Ok,
    ensures
        crate::json_text::json_read(text) matches Ok(Json::Object(members)) && crate::assoc::lookup(
            members,
            urls::SUBJECT@,
        ) is Some && (crate::assoc::lookup(members, urls::SIGNATURE@) matches Some(
            Json::Text(signature),
        ) && commit_of_text(schema, text, Ok(server)) == resource_of(
            Known { schema, importer: None },
            Some(server + "/commits/"@ + signature),
            members,
        ) && commit_of_text(schema, text, Ok(server))->Ok_0.subject == server + "/commits/"@
            + signature),
{
    let members = crate::json_text::json_read(text)->Ok_0->Object_0;
    given_subject_is_kept(
        Known { schema, importer: None },
        Some(commit_address(server, signature_of(members)->0)),
        members,
    );
}

/// A text that is a commit about a resource, with a signature and members that parse, parses.
pub proof fn commits_parse(
    schema: SchemaView,
    text: Seq<char>,
    server: Seq<char>,
    members: Seq<(Seq<char>, Json)>,
    signature: Seq<char>,
)
    requires
        crate::json_text::json_read(text) == Ok::<Json, Seq<char>>(Json::Object(members)),
        crate::assoc::lookup(members, urls::SUBJECT@) is Some,
        crate::assoc::lookup(members, urls::SIGNATURE@) == Some(Json::Text(signature)),
        forall|i: int|
            0 <= i < members.len() ==> parses(
                Known { schema, importer: None },
                true,
                #[trigger] members[i],
            ),
    ensures
        commit_of_text(schema, text, Ok(server)) is Ok,
{
    resources_parse_where_their_members_do(
        Known { schema, importer: None },
        Some(server + "/commits/"@ + signature),
        members,
    );
}

/// A text parses as a resource where it is an object that describes one, and only there.
pub proof fn texts_are_the_resources_that_they_describe(known: Known, text: Seq<char>)
    ensures
        resource_of_text(known, text) matches Ok(resource) <==> (crate::json_text::json_read(
            text,
        ) matches Ok(Json::Object(members)) && resource_of(known, None, members) is Ok),
        resource_of_text(known, text) matches Ok(resource) ==> resource_of(
            known,
            None,
            crate::json_text::json_read(text)->Ok_0->Object_0,
        ) == Ok::<ResourceView, StopView>(resource),
{
}

proof fn lemma_first_verdict(
    literals: Seq<(Seq<char>, DataTypeView, Result<(), ErrorView>)>,
    text: Seq<char>,
    datatype: DataTypeView,
    i: int,
)
    requires
        0 <= i <= literals.len(),
        i < literals.len() ==> literals[i].0 == text && literals[i].1 == datatype,
        forall|j: int|
            0 <= j < i ==> !((#[trigger] literals[j]).0 == text && literals[j].1 == datatype),
    ensures
        i < literals.len() ==> verdict(literals, text, datatype) == Some(literals[i].2),
        i == literals.len() ==> verdict(literals, text, datatype) is None,
    decreases literals.len(),
{
    if i > 0 {
        let rest = literals.drop_first();
        assert(!(literals[0].0 == text && literals[0].1 == datatype));
        assert forall|j: int| 0 <= j < i - 1 implies !((#[trigger] rest[j]).0 == text && rest[j].1
            == datatype) by {
            assert(rest[j] == literals[j + 1]);
        }
        lemma_first_verdict(rest, text, datatype, i - 1);
    }
}

/// What has been said first of a text decides: it is a value, or it is refused with the error that was
/// given. A text of which nothing has been said is asked about.
pub proof fn what_is_said_of_a_text_decides(
    known: Known,
    datatype: DataTypeView,
    prop: Seq<char>,
    text: Seq<char>,
    subject: Option<Seq<char>>,
    i: int,
)
    requires
        datatype is Slug || datatype is Markdown || datatype is Uri || datatype is Date,
        0 <= i <= known.schema.literals.len(),
        i < known.schema.literals.len() ==> known.schema.literals[i].0 == text
            && known.schema.literals[i].1 == datatype,
        forall|j: int|
            0 <= j < i ==> !((#[trigger] known.schema.literals[j]).0 == text
                && known.schema.literals[j].1 == datatype),
    ensures
        i == known.schema.literals.len() ==> value_of(known, datatype, prop, Json::Text(text), subject)
            == Err::<PropValueView, StopView>(
            StopView::Ask(QuestionView::Literal { text, datatype }),
        ),
        i < known.schema.literals.len() ==> match known.schema.literals[i].2 {
            Ok(_) => value_of(known, datatype, prop, Json::Text(text), subject) == Ok::<
                PropValueView,
                StopView,
            >(PropValueView::Literal { text, datatype }),
            Err(e) => value_of(known, datatype, prop, Json::Text(text), subject) == Err::<
                PropValueView,
                StopView,
            >(StopView::Error(e)),
        },
{
    lemma_first_verdict(known.schema.literals, text, datatype, i);
}

proof fn lemma_draft_members(
    known: Known,
    fixed: Option<Seq<char>>,
    members: Seq<(Seq<char>, Json)>,
    n: nat,
    i: int,
)
    requires
        0 <= i < n <= members.len(),
        draft_of(known, fixed, members, n) is Ok,
    ensures
        sets_property(known, members[i].0) ==> exists|subject: Option<Seq<char>>| #[trigger]
            propval(known, members[i].0, members[i].1, subject) is Ok,
        !sets_property(known, members[i].0) ==> fixed is None && (members[i].1 matches Json::Text(
            id,
        ) && (members[i].0 == "@id"@ ==> "http"@.is_prefix_of(id))),
    decreases n,
{
    if i < n - 1 {
        lemma_draft_members(known, fixed, members, (n - 1) as nat, i);
    } else {
        let draft = draft_of(known, fixed, members, (n - 1) as nat)->Ok_0;
        if sets_property(known, members[i].0) {
            assert(propval(known, members[i].0, members[i].1, draft.subject) is Ok);
        }
    }
}

/// A resource parses only where all of its members do: those that set a property have a value that
/// parses, and those that name it are texts, and addresses where they are called `@id`. One that is
/// given its address has none that names it.
pub proof fn every_member_of_a_resource_parses(
    known: Known,
    fixed: Option<Seq<char>>,
    members: Seq<(Seq<char>, Json)>,
    i: int,
)
    requires
        0 <= i < members.len(),
        resource_of(known, fixed, members) is Ok,
    ensures
        members[i].0 == "@id"@ || (members[i].0 == urls::LOCAL_ID@ && known.importer is Some)
            ==> fixed is None && (members[i].1 matches Json::Text(id) && (members[i].0 == "@id"@
            ==> "http"@.is_prefix_of(id))),
        members[i].0 != "@id"@ && !(members[i].0 == urls::LOCAL_ID@ && known.importer is Some)
            ==> exists|subject: Option<Seq<char>>| #[trigger]
            propval(known, members[i].0, members[i].1, subject) is Ok,
{
    lemma_draft_members(known, fixed, members, members.len(), i);
}

/// A resource inside another one parses only where all of its members do.
pub proof fn every_member_of_a_nested_resource_parses(
    known: Known,
    members: Seq<(Seq<char>, Json)>,
    n: nat,
    subject: Option<Seq<char>>,
    i: int,
)
    requires
        0 <= i < n <= members.len(),
        anonymous(known, members, n, subject) is Ok,
    ensures
        propval(known, members[i].0, members[i].1, subject) is Ok,
    decreases n,
{
    if i < n - 1 {
        every_member_of_a_nested_resource_parses(known, members, (n - 1) as nat, subject, i);
    } else {
        assert(anonymous(known, members, n, subject) is Ok);
        assert(propval(known, members[n - 1].0, members[n - 1].1, subject) is Ok);
    }
}

} // verus!
