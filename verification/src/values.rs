//! Resources and their values.
use crate::json::JsonValue;
use vstd::prelude::*;

verus! {

/// The kinds of values that a property can have.
#[derive(Clone, Debug)]
pub enum DataType {
    AtomicUrl,
    Boolean,
    Date,
    Float,
    Integer,
    JSON,
    Markdown,
    ResourceArray,
    Slug,
    String,
    Timestamp,
    Uri,
    YDoc,
    Unsupported(String),
}

/// What a [DataType] says.
pub enum DataTypeView {
    AtomicUrl,
    Boolean,
    Date,
    Float,
    Integer,
    JSON,
    Markdown,
    ResourceArray,
    Slug,
    String,
    Timestamp,
    Uri,
    YDoc,
    Unsupported(Seq<char>),
}

impl View for DataType {
    type V = DataTypeView;

    open spec fn view(&self) -> DataTypeView {
        match *self {
            DataType::AtomicUrl => DataTypeView::AtomicUrl,
            DataType::Boolean => DataTypeView::Boolean,
            DataType::Date => DataTypeView::Date,
            DataType::Float => DataTypeView::Float,
            DataType::Integer => DataTypeView::Integer,
            DataType::JSON => DataTypeView::JSON,
            DataType::Markdown => DataTypeView::Markdown,
            DataType::ResourceArray => DataTypeView::ResourceArray,
            DataType::Slug => DataTypeView::Slug,
            DataType::String => DataTypeView::String,
            DataType::Timestamp => DataTypeView::Timestamp,
            DataType::Uri => DataTypeView::Uri,
            DataType::YDoc => DataTypeView::YDoc,
            DataType::Unsupported(name) => DataTypeView::Unsupported(name@),
        }
    }
}

impl DataType {
    /// A copy that says the same.
    pub fn copy(&self) -> (r: DataType)
        ensures
            r@ == self@,
    {
        match self {
            DataType::AtomicUrl => DataType::AtomicUrl,
            DataType::Boolean => DataType::Boolean,
            DataType::Date => DataType::Date,
            DataType::Float => DataType::Float,
            DataType::Integer => DataType::Integer,
            DataType::JSON => DataType::JSON,
            DataType::Markdown => DataType::Markdown,
            DataType::ResourceArray => DataType::ResourceArray,
            DataType::Slug => DataType::Slug,
            DataType::String => DataType::String,
            DataType::Timestamp => DataType::Timestamp,
            DataType::Uri => DataType::Uri,
            DataType::YDoc => DataType::YDoc,
            DataType::Unsupported(name) => DataType::Unsupported(name.clone()),
        }
    }

    /// Whether two datatypes are the same.
    pub fn same(&self, other: &DataType) -> (r: bool)
        ensures
            r == (self@ == other@),
    {
        match (self, other) {
            (DataType::AtomicUrl, DataType::AtomicUrl) => true,
            (DataType::Boolean, DataType::Boolean) => true,
            (DataType::Date, DataType::Date) => true,
            (DataType::Float, DataType::Float) => true,
            (DataType::Integer, DataType::Integer) => true,
            (DataType::JSON, DataType::JSON) => true,
            (DataType::Markdown, DataType::Markdown) => true,
            (DataType::ResourceArray, DataType::ResourceArray) => true,
            (DataType::Slug, DataType::Slug) => true,
            (DataType::String, DataType::String) => true,
            (DataType::Timestamp, DataType::Timestamp) => true,
            (DataType::Uri, DataType::Uri) => true,
            (DataType::YDoc, DataType::YDoc) => true,
            (DataType::Unsupported(a), DataType::Unsupported(b)) => crate::text::same(
                a.as_str(),
                b.as_str(),
            ),
            _ => false,
        }
    }
}

/// A value of a resource.
pub enum PropValue {
    /// A value without parts: the text in which its datatype reads it.
    Literal { text: String, datatype: DataType },
    /// A resource without an address of its own.
    NestedResource(Vec<(String, PropValue)>),
    ResourceArray(Vec<SubResource>),
    Json(JsonValue),
}

/// An element of a list of resources.
pub enum SubResource {
    Subject(String),
    Nested(Vec<(String, PropValue)>),
}

/// The properties of a resource with their values. Each property occurs once.
pub type PropVals = Vec<(String, PropValue)>;

/// What a [PropValue] says.
pub enum PropValueView {
    Literal { text: Seq<char>, datatype: DataTypeView },
    NestedResource(Seq<(Seq<char>, PropValueView)>),
    ResourceArray(Seq<SubResourceView>),
    Json(crate::json::Json),
}

/// What a [SubResource] says.
pub enum SubResourceView {
    Subject(Seq<char>),
    Nested(Seq<(Seq<char>, PropValueView)>),
}

/// What a value says.
pub open spec fn value_view(value: PropValue) -> PropValueView
    decreases value,
{
    match value {
        PropValue::Literal { text, datatype } => PropValueView::Literal {
            text: text@,
            datatype: datatype@,
        },
        PropValue::NestedResource(entries) => PropValueView::NestedResource(propvals_view(entries@)),
        PropValue::ResourceArray(items) => PropValueView::ResourceArray(subresources_view(items@)),
        PropValue::Json(json) => PropValueView::Json(json@),
    }
}

/// What an element of a list of resources says.
pub open spec fn subresource_view(item: SubResource) -> SubResourceView
    decreases item,
{
    match item {
        SubResource::Subject(subject) => SubResourceView::Subject(subject@),
        SubResource::Nested(entries) => SubResourceView::Nested(propvals_view(entries@)),
    }
}

/// What the properties of a resource say.
pub open spec fn propvals_view(entries: Seq<(String, PropValue)>) -> Seq<(Seq<char>, PropValueView)>
    decreases entries,
{
    Seq::new(
        entries.len(),
        |i: int|
            if 0 <= i < entries.len() {
                (entries[i].0@, value_view(entries[i].1))
            } else {
                (Seq::empty(), PropValueView::Json(crate::json::Json::Null))
            },
    )
}

/// What a list of resources says.
pub open spec fn subresources_view(items: Seq<SubResource>) -> Seq<SubResourceView>
    decreases items,
{
    Seq::new(
        items.len(),
        |i: int|
            if 0 <= i < items.len() {
                subresource_view(items[i])
            } else {
                SubResourceView::Subject(Seq::empty())
            },
    )
}

impl View for PropValue {
    type V = PropValueView;

    open spec fn view(&self) -> PropValueView {
        value_view(*self)
    }
}

impl View for SubResource {
    type V = SubResourceView;

    open spec fn view(&self) -> SubResourceView {
        subresource_view(*self)
    }
}

/// Sets the value of a property, in place of the one it had.
pub fn put_propval(entries: &mut PropVals, property: String, value: PropValue)
    ensures
        propvals_view(final(entries)@) == crate::assoc::put(
            propvals_view(old(entries)@),
            property@,
            value@,
        ),
{
    let i = crate::assoc::place_of(entries, property.as_str());
    proof {
        crate::assoc::lemma_place_is(propvals_view(entries@), property@, i as int);
    }
    if i < entries.len() {
        entries.set(i, (property, value));
    } else {
        entries.push((property, value));
    }
    assert(propvals_view(entries@) =~= crate::assoc::put(
        propvals_view(old(entries)@),
        property@,
        value@,
    ));
}

/// A resource: its address and its properties.
pub struct Resource {
    pub subject: String,
    pub propvals: PropVals,
}

/// What a [Resource] says.
pub struct ResourceView {
    pub subject: Seq<char>,
    pub propvals: Seq<(Seq<char>, PropValueView)>,
}

impl View for Resource {
    type V = ResourceView;

    open spec fn view(&self) -> ResourceView {
        ResourceView { subject: self.subject@, propvals: propvals_view(self.propvals@) }
    }
}

/// The value of a property.
pub fn get_propval<'a>(propvals: &'a PropVals, property: &str) -> (r: Option<&'a PropValue>)
    ensures
        match r {
            Some(value) => crate::assoc::lookup(propvals_view(propvals@), property@) == Some(
                value@,
            ),
            None => crate::assoc::lookup(propvals_view(propvals@), property@) is None,
        },
{
    let i = crate::assoc::place_of(propvals, property);
    proof {
        crate::assoc::lemma_place_is(propvals_view(propvals@), property@, i as int);
    }
    if i < propvals.len() {
        Some(&propvals[i].1)
    } else {
        None
    }
}

/// The answer to a request for a resource, with or without the resources that it refers to.
pub enum ResourceResponse {
    Resource(Resource),
    ResourceWithReferenced(Resource, Vec<Resource>),
}

/// What a [ResourceResponse] says.
pub enum ResponseView {
    Resource(ResourceView),
    ResourceWithReferenced(ResourceView, Seq<ResourceView>),
}

/// What some resources say.
pub open spec fn resources_view(resources: Seq<Resource>) -> Seq<ResourceView> {
    resources.map_values(|r: Resource| r@)
}

impl View for ResourceResponse {
    type V = ResponseView;

    open spec fn view(&self) -> ResponseView {
        match *self {
            ResourceResponse::Resource(r) => ResponseView::Resource(r@),
            ResourceResponse::ResourceWithReferenced(
                r,
                referenced,
            ) => ResponseView::ResourceWithReferenced(r@, resources_view(referenced@)),
        }
    }
}

} // verus!
