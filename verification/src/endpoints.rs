//! Endpoints: paths of the server at which resources are worked out when they are asked for.
use crate::address::parse_url;
use crate::errors::{AtomicError, AtomicResult, ErrorView};
use crate::text::{cat2, cat4, same};
use crate::urls;
use crate::values::{ResourceResponse, ResourceView, ResponseView};
use vstd::prelude::*;

verus! {

/// What answers a GET request.
#[derive(Clone, Copy, Debug, PartialEq, Eq, Structural)]
pub enum HandleGet {
    Query,
    Path,
    Version,
    AllVersions,
}

/// What answers a POST request.
#[derive(Clone, Copy, Debug, PartialEq, Eq, Structural)]
pub enum HandlePost {
    Import,
}

/// A path of the server which takes requests and answers with a resource.
pub struct Endpoint {
    /// The part behind the domain of the server, with the slash.
    pub path: String,
    /// Answers a GET request. Without it, the endpoint itself is shown.
    pub handle: Option<HandleGet>,
    /// Answers a POST request.
    pub handle_post: Option<HandlePost>,
    /// The properties that can be passed as query parameters.
    pub params: Vec<String>,
    pub description: String,
    pub shortname: String,
}

/// A path of the server which takes POST requests only.
pub struct PostEndpoint {
    pub path: String,
    pub handle: Option<HandlePost>,
    pub params: Vec<String>,
    pub description: String,
    pub shortname: String,
}

/// What is handed to what answers a GET request.
pub struct HandleGetContext {
    /// The address that is asked for, with the query parameters.
    pub subject: crate::address::UrlParts,
    pub for_agent: crate::agents::ForAgent,
}

/// What is handed to what answers a POST request.
pub struct HandlePostContext {
    /// The address that is posted to, with the query parameters.
    pub subject: crate::address::UrlParts,
    pub for_agent: crate::agents::ForAgent,
    pub body: Vec<u8>,
}

/// What an [Endpoint] says.
pub struct EndpointView {
    pub path: Seq<char>,
    pub handle: Option<HandleGet>,
    pub handle_post: Option<HandlePost>,
    pub params: Seq<Seq<char>>,
    pub description: Seq<char>,
    pub shortname: Seq<char>,
}

impl View for Endpoint {
    type V = EndpointView;

    open spec fn view(&self) -> EndpointView {
        EndpointView {
            path: self.path@,
            handle: self.handle,
            handle_post: self.handle_post,
            params: crate::text::list(self.params@),
            description: self.description@,
            shortname: self.shortname@,
        }
    }
}

/// A value that is set on a resource.
pub enum Assigned {
    /// A text, to be read as the datatype of the property has it.
    Text(String),
    /// The address of a resource.
    Url(String),
    /// The addresses of resources.
    Subjects(Vec<String>),
}

/// What an [Assigned] says.
pub enum AssignedView {
    Text(Seq<char>),
    Url(Seq<char>),
    Subjects(Seq<Seq<char>>),
}

impl View for Assigned {
    type V = AssignedView;

    open spec fn view(&self) -> AssignedView {
        match *self {
            Assigned::Text(text) => AssignedView::Text(text@),
            Assigned::Url(url) => AssignedView::Url(url@),
            Assigned::Subjects(subjects) => AssignedView::Subjects(crate::text::list(subjects@)),
        }
    }
}

/// Values to be set on a resource, in order.
pub struct Assignments {
    pub subject: String,
    pub values: Vec<(&'static str, Assigned)>,
}

/// What [Assignments] say.
pub struct AssignmentsView {
    pub subject: Seq<char>,
    pub values: Seq<(Seq<char>, AssignedView)>,
}

impl View for Assignments {
    type V = AssignmentsView;

    open spec fn view(&self) -> AssignmentsView {
        AssignmentsView {
            subject: self.subject@,
            values: self.values@.map_values(|v: (&'static str, Assigned)| (v.0@, v.1@)),
        }
    }
}

/// The resource that shows an endpoint.
pub open spec fn endpoint_resource(endpoint: EndpointView, server_url: Seq<char>) ->
    AssignmentsView {
    AssignmentsView {
        subject: server_url + endpoint.path,
        values: seq![
            (urls::DESCRIPTION@, AssignedView::Text(endpoint.description)),
            (urls::SHORTNAME@, AssignedView::Text(endpoint.shortname)),
            (urls::IS_A@, AssignedView::Subjects(seq![urls::ENDPOINT@])),
            (urls::ENDPOINT_PARAMETERS@, AssignedView::Subjects(endpoint.params)),
        ],
    }
}

impl Endpoint {
    /// The resource that shows the endpoint.
    pub fn to_resource(&self, server_url: AtomicResult<String>) -> (r: AtomicResult<Assignments>)
        ensures
            match server_url {
                Ok(server) => r is Ok && r->Ok_0@ == endpoint_resource(self@, server@),
                Err(e) => r == Err::<Assignments, AtomicError>(e),
            },
    {
        match server_url {
            Err(e) => Err(e),
            Ok(server) => {
                let mut is_a: Vec<String> = Vec::new();
                is_a.push(urls::ENDPOINT.to_owned());
                assert(crate::text::list(is_a@) =~= seq![urls::ENDPOINT@]);
                let mut values: Vec<(&'static str, Assigned)> = Vec::new();
                values.push((urls::DESCRIPTION, Assigned::Text(self.description.clone())));
                values.push((urls::SHORTNAME, Assigned::Text(self.shortname.clone())));
                values.push((urls::IS_A, Assigned::Subjects(is_a)));
                values.push(
                    (
                        urls::ENDPOINT_PARAMETERS,
                        Assigned::Subjects(crate::text::copy_list(&self.params)),
                    ),
                );
                let r = Assignments {
                    subject: cat2(server.as_str(), self.path.as_str()),
                    values,
                };
                assert(r@.values =~= endpoint_resource(self@, server@).values);
                Ok(r)
            },
        }
    }
}

/// What some endpoints say.
pub open spec fn endpoints_view(endpoints: Seq<Endpoint>) -> Seq<EndpointView> {
    endpoints.map_values(|e: Endpoint| e@)
}

/// The place of the first endpoint with a path, or the number of endpoints.
pub open spec fn endpoint_at(endpoints: Seq<EndpointView>, path: Seq<char>, posted: bool) -> int
    decreases endpoints.len(),
{
    if endpoints.len() == 0 {
        0
    } else if endpoints[0].path == path && (posted ==> endpoints[0].handle_post is Some) {
        0
    } else {
        1 + endpoint_at(endpoints.drop_first(), path, posted)
    }
}

/// Finds the first endpoint with a path. For a POST request, it must be able to answer one.
pub fn find_endpoint(endpoints: &Vec<Endpoint>, path: &str, posted: bool) -> (r: Option<usize>)
    ensures
        match r {
            Some(i) => i < endpoints@.len() && i == endpoint_at(
                endpoints_view(endpoints@),
                path@,
                posted,
            ) && endpoints@[i as int].path@ == path@ && (posted
                ==> endpoints@[i as int].handle_post is Some),
            None => endpoint_at(endpoints_view(endpoints@), path@, posted) == endpoints@.len(),
        },
{
    let ghost all = endpoints_view(endpoints@);
    let mut i: usize = 0;
    assert(all.skip(0) =~= all);
    while i < endpoints.len()
        invariant
            i <= endpoints@.len(),
            all == endpoints_view(endpoints@),
            endpoint_at(all, path@, posted) == i + endpoint_at(
                all.skip(i as int),
                path@,
                posted,
            ),
        decreases endpoints@.len() - i,
    {
        assert(all.skip(i as int)[0] == endpoints@[i as int]@);
        assert(all.skip(i as int).drop_first() =~= all.skip(i + 1));
        if same(endpoints[i].path.as_str(), path) && (!posted
            || endpoints[i].handle_post.is_some()) {
            return Some(i);
        }
        i += 1;
    }
    None
}

/// Whether there is an endpoint with a path.
pub fn is_endpoint(endpoints: &Vec<Endpoint>, path: &str) -> (r: bool)
    ensures
        r == (exists|i: int|
            0 <= i < endpoints@.len() && (#[trigger] endpoints@[i]).path@ == path@),
{
    proof {
        lemma_endpoint_at(endpoints_view(endpoints@), path@, false);
        assert forall|i: int| 0 <= i < endpoints@.len() implies (#[trigger] endpoints@[i]).path@
            == endpoints_view(endpoints@)[i].path by {}
    }
    find_endpoint(endpoints, path, false).is_some()
}

proof fn lemma_endpoint_at(endpoints: Seq<EndpointView>, path: Seq<char>, posted: bool)
    ensures
        0 <= endpoint_at(endpoints, path, posted) <= endpoints.len(),
        forall|j: int|
            0 <= j < endpoint_at(endpoints, path, posted) ==> !((#[trigger] endpoints[j]).path
                == path && (posted ==> endpoints[j].handle_post is Some)),
    decreases endpoints.len(),
{
    if endpoints.len() > 0 {
        lemma_endpoint_at(endpoints.drop_first(), path, posted);
        assert forall|j: int| 0 <= j < endpoint_at(endpoints, path, posted) implies !((
        #[trigger] endpoints[j]).path == path && (posted ==> endpoints[j].handle_post is Some)) by {
            if j > 0 {
                assert(endpoints.drop_first()[j - 1] == endpoints[j]);
            }
        }
    }
}

/// How a GET request to an endpoint is answered.
#[derive(Clone, Copy, Debug, PartialEq, Eq, Structural)]
pub enum GetRoute {
    /// By the handler of the endpoint with this place.
    Handle(usize, HandleGet),
    /// With the endpoint with this place itself.
    Show(usize),
}

/// How a GET request to an address is answered.
pub open spec fn get_route(endpoints: Seq<EndpointView>, subject: Seq<char>) -> Result<
    GetRoute,
    ErrorView,
> {
    match crate::address::url_parts(subject) {
        Err(complaint) => Err(crate::errors::other(complaint)),
        Ok(url) => {
            let i = endpoint_at(endpoints, url.path, false);
            if i < endpoints.len() {
                match endpoints[i].handle {
                    Some(handle) => Ok(GetRoute::Handle(i as usize, handle)),
                    None => Ok(GetRoute::Show(i as usize)),
                }
            } else {
                Err(crate::errors::other("No endpoint found for "@ + subject))
            }
        },
    }
}

/// Finds out how a GET request to an address is answered.
pub fn call_endpoint(endpoints: &Vec<Endpoint>, subject: &str) -> (r: AtomicResult<GetRoute>)
    ensures
        match r {
            Ok(route) => get_route(endpoints_view(endpoints@), subject@) == Ok::<
                GetRoute,
                ErrorView,
            >(route),
            Err(e) => get_route(endpoints_view(endpoints@), subject@) == Err::<
                GetRoute,
                ErrorView,
            >(e@),
        },
{
    match parse_url(subject) {
        Err(e) => Err(e),
        Ok(url) => match find_endpoint(endpoints, url.path.as_str(), false) {
            Some(i) => {
                assert(endpoints_view(endpoints@)[i as int] == endpoints@[i as int]@);
                match endpoints[i].handle {
                    Some(handle) => Ok(GetRoute::Handle(i, handle)),
                    None => Ok(GetRoute::Show(i)),
                }
            },
            None => Err(AtomicError::other_error(cat2("No endpoint found for ", subject))),
        },
    }
}

/// What is said where the handler of an endpoint failed.
pub fn explain_handler(endpoint: &Endpoint, cause: &AtomicError) -> (r: AtomicError)
    ensures
        r@ == crate::errors::other(
            "Error handling "@ + endpoint@.shortname + " Endpoint: "@ + cause@.message,
        ),
{
    AtomicError::other_error(
        cat4(
            "Error handling ",
            endpoint.shortname.as_str(),
            " Endpoint: ",
            cause.message.as_str(),
        ),
    )
}

/// How a POST request to an address is answered.
pub open spec fn post_route(endpoints: Seq<EndpointView>, subject: Seq<char>) -> Result<
    (usize, HandlePost),
    ErrorView,
> {
    match crate::address::url_parts(subject) {
        Err(complaint) => Err(crate::errors::other(complaint)),
        Ok(url) => {
            let i = endpoint_at(endpoints, url.path, true);
            if i < endpoints.len() {
                Ok((i as usize, endpoints[i].handle_post->0))
            } else {
                Err(
                    crate::errors::not_allowed(
                        "Cannot post here - no Endpoint Post handler found"@,
                        subject,
                    ),
                )
            }
        },
    }
}

/// Finds out how a POST request to an address is answered.
pub fn post_resource(endpoints: &Vec<Endpoint>, subject: &str) -> (r: AtomicResult<
    (usize, HandlePost),
>)
    ensures
        match r {
            Ok(route) => post_route(endpoints_view(endpoints@), subject@) == Ok::<
                (usize, HandlePost),
                ErrorView,
            >(route),
            Err(e) => post_route(endpoints_view(endpoints@), subject@) == Err::<
                (usize, HandlePost),
                ErrorView,
            >(e@),
        },
{
    match parse_url(subject) {
        Err(e) => Err(e),
        Ok(url) => {
            if let Some(i) = find_endpoint(endpoints, url.path.as_str(), true) {
                assert(endpoints_view(endpoints@)[i as int] == endpoints@[i as int]@);
                if let Some(handle) = endpoints[i].handle_post {
                    return Ok((i, handle));
                }
            }
            Err(
                AtomicError::method_not_allowed(
                    "Cannot post here - no Endpoint Post handler found",
                    subject,
                ),
            )
        },
    }
}

/// A resource with another address.
pub open spec fn readdressed(resource: ResourceView, subject: Seq<char>) -> ResourceView {
    ResourceView { subject, propvals: resource.propvals }
}

/// An answer whose main resource has another address.
pub open spec fn response_at(response: ResponseView, subject: Seq<char>) -> ResponseView {
    match response {
        ResponseView::Resource(resource) => ResponseView::Resource(readdressed(resource, subject)),
        ResponseView::ResourceWithReferenced(
            resource,
            referenced,
        ) => ResponseView::ResourceWithReferenced(readdressed(resource, subject), referenced),
    }
}

/// Gives an answer the address that was asked for. The resources that it refers to keep theirs.
pub fn set_response_subject(response: ResourceResponse, subject: &str) -> (r: ResourceResponse)
    ensures
        r@ == response_at(response@, subject@),
{
    match response {
        ResourceResponse::Resource(mut resource) => {
            resource.subject = subject.to_owned();
            ResourceResponse::Resource(resource)
        },
        ResourceResponse::ResourceWithReferenced(mut resource, referenced) => {
            resource.subject = subject.to_owned();
            ResourceResponse::ResourceWithReferenced(resource, referenced)
        },
    }
}

/// An endpoint without handlers.
fn plain_endpoint(path: &str, description: &str, shortname: &str, params: Vec<String>) -> (r:
    Endpoint)
    ensures
        r@ == (EndpointView {
            path: path@,
            handle: None,
            handle_post: None,
            params: crate::text::list(params@),
            description: description@,
            shortname: shortname@,
        }),
{
    Endpoint {
        path: path.to_owned(),
        handle: None,
        handle_post: None,
        params,
        description: description.to_owned(),
        shortname: shortname.to_owned(),
    }
}

/// The endpoint that queries the server.
pub open spec fn query_endpoint_view() -> EndpointView {
    EndpointView {
        path: urls::PATH_QUERY@,
        handle: Some(HandleGet::Query),
        handle_post: None,
        params: seq![
            urls::COLLECTION_PROPERTY@,
            urls::COLLECTION_VALUE@,
            urls::COLLECTION_PAGE_SIZE@,
            urls::COLLECTION_CURRENT_PAGE@,
            urls::COLLECTION_INCLUDE_EXTERNAL@,
            urls::COLLECTION_INCLUDE_NESTED@,
            urls::COLLECTION_SORT_BY@,
            urls::COLLECTION_SORT_DESC@,
        ],
        description: "Query the server for resources matching the query filter."@,
        shortname: "query"@,
    }
}

/// The endpoint that queries the server.
pub fn query_endpoint() -> (r: Endpoint)
    ensures
        r@ == query_endpoint_view(),
{
    let mut params: Vec<String> = Vec::new();
    params.push(urls::COLLECTION_PROPERTY.to_owned());
    params.push(urls::COLLECTION_VALUE.to_owned());
    params.push(urls::COLLECTION_PAGE_SIZE.to_owned());
    params.push(urls::COLLECTION_CURRENT_PAGE.to_owned());
    params.push(urls::COLLECTION_INCLUDE_EXTERNAL.to_owned());
    params.push(urls::COLLECTION_INCLUDE_NESTED.to_owned());
    params.push(urls::COLLECTION_SORT_BY.to_owned());
    params.push(urls::COLLECTION_SORT_DESC.to_owned());
    assert(crate::text::list(params@) =~= query_endpoint_view().params);
    let mut r = plain_endpoint(
        urls::PATH_QUERY,
        "Query the server for resources matching the query filter.",
        "query",
        params,
    );
    r.handle = Some(HandleGet::Query);
    r
}

/// Whether a query is to be shown as a collection. Without parameters the endpoint is shown.
pub fn handle_query_request(url: &crate::address::UrlParts) -> (r: bool)
    ensures
        r == (url@.pairs.len() > 0),
{
    url.pairs.len() > 0
}

/// The endpoint that follows a path.
pub open spec fn path_endpoint_view() -> EndpointView {
    EndpointView {
        path: "/path"@,
        handle: Some(HandleGet::Path),
        handle_post: None,
        params: seq![urls::PATH@],
        description: "An Atomic Path is a string that starts with the URL of some Atomic Resource, followed by one or multiple other Property URLs or Property Shortnames. It resolves to one specific Resource or Value. At this moment, Values are not yet supported."@,
        shortname: "path"@,
    }
}

/// The endpoint that follows a path.
pub fn path_endpoint() -> (r: Endpoint)
    ensures
        r@ == path_endpoint_view(),
{
    let mut params: Vec<String> = Vec::new();
    params.push(urls::PATH.to_owned());
    assert(crate::text::list(params@) =~= seq![urls::PATH@]);
    let mut r = plain_endpoint(
        "/path",
        "An Atomic Path is a string that starts with the URL of some Atomic Resource, followed by one or multiple other Property URLs or Property Shortnames. It resolves to one specific Resource or Value. At this moment, Values are not yet supported.",
        "path",
        params,
    );
    r.handle = Some(HandleGet::Path);
    r
}

/// The endpoint that shows a version of a resource.
pub open spec fn version_endpoint_view() -> EndpointView {
    EndpointView {
        path: "/version"@,
        handle: Some(HandleGet::Version),
        handle_post: None,
        params: seq![urls::SUBJECT@],
        description: "Constructs a version of a resource from a Commit URL."@,
        shortname: "versions"@,
    }
}

/// The endpoint that shows a version of a resource.
pub fn version_endpoint() -> (r: Endpoint)
    ensures
        r@ == version_endpoint_view(),
{
    let mut params: Vec<String> = Vec::new();
    params.push(urls::SUBJECT.to_owned());
    assert(crate::text::list(params@) =~= seq![urls::SUBJECT@]);
    let mut r = plain_endpoint(
        "/version",
        "Constructs a version of a resource from a Commit URL.",
        "versions",
        params,
    );
    r.handle = Some(HandleGet::Version);
    r
}

/// The endpoint that lists all versions of a resource.
pub open spec fn all_versions_endpoint_view() -> EndpointView {
    EndpointView {
        path: "/all-versions"@,
        handle: Some(HandleGet::AllVersions),
        handle_post: None,
        params: seq![urls::SUBJECT@],
        description: "Shows all versions for some resource. Constructs these using Commits."@,
        shortname: "all-versions"@,
    }
}

/// The endpoint that lists all versions of a resource.
pub fn all_versions_endpoint() -> (r: Endpoint)
    ensures
        r@ == all_versions_endpoint_view(),
{
    let mut params: Vec<String> = Vec::new();
    params.push(urls::SUBJECT.to_owned());
    assert(crate::text::list(params@) =~= seq![urls::SUBJECT@]);
    let mut r = plain_endpoint(
        "/all-versions",
        "Shows all versions for some resource. Constructs these using Commits.",
        "all-versions",
        params,
    );
    r.handle = Some(HandleGet::AllVersions);
    r
}

/// The endpoint that imports resources.
pub open spec fn import_endpoint_view() -> EndpointView {
    EndpointView {
        path: "/import"@,
        handle: None,
        handle_post: Some(HandlePost::Import),
        params: seq![
            urls::IMPORTER_OVERWRITE_OUTSIDE@,
            urls::IMPORTER_PARENT@,
            urls::IMPORTER_URL@,
        ],
        description: "Imports one or more Resources to some parent. POST your JSON-AD and add a `parent` query param to the URL. See https://docs.atomicdata.dev/create-json-ad.html"@,
        shortname: "path"@,
    }
}

/// The endpoint that imports resources.
pub fn import_endpoint() -> (r: Endpoint)
    ensures
        r@ == import_endpoint_view(),
{
    let mut params: Vec<String> = Vec::new();
    params.push(urls::IMPORTER_OVERWRITE_OUTSIDE.to_owned());
    params.push(urls::IMPORTER_PARENT.to_owned());
    params.push(urls::IMPORTER_URL.to_owned());
    assert(crate::text::list(params@) =~= import_endpoint_view().params);
    let mut r = plain_endpoint(
        "/import",
        "Imports one or more Resources to some parent. POST your JSON-AD and add a `parent` query param to the URL. See https://docs.atomicdata.dev/create-json-ad.html",
        "path",
        params,
    );
    r.handle_post = Some(HandlePost::Import);
    r
}

proof fn lemma_endpoint_is(endpoints: Seq<EndpointView>, path: Seq<char>, posted: bool, i: int)
    requires
        0 <= i < endpoints.len(),
        endpoints[i].path == path && (posted ==> endpoints[i].handle_post is Some),
        forall|j: int|
            0 <= j < i ==> !((#[trigger] endpoints[j]).path == path && (posted
                ==> endpoints[j].handle_post is Some)),
    ensures
        endpoint_at(endpoints, path, posted) == i,
    decreases endpoints.len(),
{
    if i > 0 {
        assert(!(endpoints[0].path == path && (posted ==> endpoints[0].handle_post is Some)));
        let rest = endpoints.drop_first();
        assert forall|j: int| 0 <= j < i - 1 implies !((#[trigger] rest[j]).path == path && (posted
            ==> rest[j].handle_post is Some)) by {
            assert(rest[j] == endpoints[j + 1]);
        }
        lemma_endpoint_is(rest, path, posted, i - 1);
    }
}

/// A GET request goes to the first endpoint with the path of its address: to its handler, or to the
/// endpoint itself where it has none. Where no endpoint has the path, it fails.
pub proof fn requests_go_to_the_endpoint_with_their_path(
    endpoints: Seq<EndpointView>,
    subject: Seq<char>,
    url: crate::address::UrlView,
    i: int,
)
    requires
        endpoints.len() <= usize::MAX,
        crate::address::url_parts(subject) == Ok::<crate::address::UrlView, Seq<char>>(url),
        0 <= i <= endpoints.len(),
        i < endpoints.len() ==> endpoints[i].path == url.path,
        forall|j: int| 0 <= j < i ==> (#[trigger] endpoints[j]).path != url.path,
    ensures
        i < endpoints.len() && endpoints[i].handle is Some ==> get_route(endpoints, subject) == Ok::<
            GetRoute,
            ErrorView,
        >(GetRoute::Handle(i as usize, endpoints[i].handle->0)),
        i < endpoints.len() && endpoints[i].handle is None ==> get_route(endpoints, subject) == Ok::<
            GetRoute,
            ErrorView,
        >(GetRoute::Show(i as usize)),
        i == endpoints.len() ==> get_route(endpoints, subject) is Err,
{
    lemma_endpoint_at(endpoints, url.path, false);
    lemma_endpoint_found(endpoints, url.path, false);
    if i < endpoints.len() {
        lemma_endpoint_is(endpoints, url.path, false, i);
    }
}

proof fn lemma_endpoint_found(endpoints: Seq<EndpointView>, path: Seq<char>, posted: bool)
    ensures
        endpoint_at(endpoints, path, posted) < endpoints.len() ==> endpoints[endpoint_at(
            endpoints,
            path,
            posted,
        )].path == path && (posted ==> endpoints[endpoint_at(
            endpoints,
            path,
            posted,
        )].handle_post is Some),
    decreases endpoints.len(),
{
    if endpoints.len() > 0 {
        lemma_endpoint_at(endpoints.drop_first(), path, posted);
        lemma_endpoint_found(endpoints.drop_first(), path, posted);
    }
}

/// A POST request goes to the first endpoint that has the path of its address and takes POST
/// requests. Where there is none, it is not allowed.
pub proof fn posts_go_to_the_endpoint_that_takes_them(
    endpoints: Seq<EndpointView>,
    subject: Seq<char>,
    url: crate::address::UrlView,
    i: int,
)
    requires
        endpoints.len() <= usize::MAX,
        crate::address::url_parts(subject) == Ok::<crate::address::UrlView, Seq<char>>(url),
        0 <= i <= endpoints.len(),
        i < endpoints.len() ==> endpoints[i].path == url.path && endpoints[i].handle_post is Some,
        forall|j: int|
            0 <= j < i ==> (#[trigger] endpoints[j]).path != url.path || endpoints[j].handle_post is
                None,
    ensures
        i < endpoints.len() ==> post_route(endpoints, subject) == Ok::<
            (usize, HandlePost),
            ErrorView,
        >((i as usize, endpoints[i].handle_post->0)),
        i == endpoints.len() ==> (post_route(endpoints, subject) matches Err(e)
            && e.error_type is MethodNotAllowed && e.subject == Some(subject)),
{
    lemma_endpoint_at(endpoints, url.path, true);
    lemma_endpoint_found(endpoints, url.path, true);
    if i < endpoints.len() {
        lemma_endpoint_is(endpoints, url.path, true, i);
    }
}

/// An answer under another address keeps its properties and the resources that it refers to.
pub proof fn answers_keep_what_they_say(response: ResponseView, subject: Seq<char>)
    ensures
        response matches ResponseView::Resource(resource) ==> (response_at(response, subject)
            matches ResponseView::Resource(r) && r.subject == subject && r.propvals
            == resource.propvals),
        response matches ResponseView::ResourceWithReferenced(resource, referenced) ==> (
        response_at(response, subject) matches ResponseView::ResourceWithReferenced(r, others)
            && r.subject == subject && r.propvals == resource.propvals && others == referenced),
        response_at(response_at(response, subject), subject) == response_at(response, subject),
{
}

/// An endpoint is shown under the address of the server and its path, with its description, its short
/// name, its class and its parameters.
pub proof fn endpoints_are_shown_with_what_they_say(
    endpoint: EndpointView,
    server_url: Seq<char>,
)
    ensures
        ({
            let shown = endpoint_resource(endpoint, server_url);
            &&& shown.subject == server_url + endpoint.path
            &&& shown.values.contains(
                (urls::DESCRIPTION@, AssignedView::Text(endpoint.description)),
            )
            &&& shown.values.contains((urls::SHORTNAME@, AssignedView::Text(endpoint.shortname)))
            &&& shown.values.contains((urls::IS_A@, AssignedView::Subjects(seq![urls::ENDPOINT@])))
            &&& shown.values.contains(
                (urls::ENDPOINT_PARAMETERS@, AssignedView::Subjects(endpoint.params)),
            )
        }),
{
    let values = endpoint_resource(endpoint, server_url).values;
    assert(values[0] == (urls::DESCRIPTION@, AssignedView::Text(endpoint.description)));
    assert(values[1] == (urls::SHORTNAME@, AssignedView::Text(endpoint.shortname)));
    assert(values[2] == (urls::IS_A@, AssignedView::Subjects(seq![urls::ENDPOINT@])));
    assert(values[3] == (urls::ENDPOINT_PARAMETERS@, AssignedView::Subjects(endpoint.params)));
}

/// The endpoints of a server answer the requests that they are for: queries, paths, versions and lists
/// of versions are asked for, an import is posted, and nothing else can be posted.
pub proof fn endpoints_answer_what_they_are_for(subject: Seq<char>, url: crate::address::UrlView)
    requires
        crate::address::url_parts(subject) == Ok::<crate::address::UrlView, Seq<char>>(url),
    ensures
        ({
            let all = seq![
                query_endpoint_view(),
                path_endpoint_view(),
                version_endpoint_view(),
                all_versions_endpoint_view(),
                import_endpoint_view(),
            ];
            let route = get_route(all, subject);
            &&& url.path == "/query"@ ==> route == Ok::<GetRoute, ErrorView>(
                GetRoute::Handle(0, HandleGet::Query),
            )
            &&& url.path == "/path"@ ==> route == Ok::<GetRoute, ErrorView>(
                GetRoute::Handle(1, HandleGet::Path),
            )
            &&& url.path == "/version"@ ==> route == Ok::<GetRoute, ErrorView>(
                GetRoute::Handle(2, HandleGet::Version),
            )
            &&& url.path == "/all-versions"@ ==> route == Ok::<GetRoute, ErrorView>(
                GetRoute::Handle(3, HandleGet::AllVersions),
            )
            &&& url.path == "/import"@ ==> route == Ok::<GetRoute, ErrorView>(GetRoute::Show(4))
            &&& url.path != "/query"@ && url.path != "/path"@ && url.path != "/version"@ && url.path
                != "/all-versions"@ && url.path != "/import"@ ==> route is Err
            &&& url.path == "/import"@ ==> post_route(all, subject) == Ok::<
                (usize, HandlePost),
                ErrorView,
            >((4, HandlePost::Import))
            &&& url.path != "/import"@ ==> post_route(all, subject) is Err
        }),
{
    reveal_strlit("/query");
    reveal_strlit("/path");
    reveal_strlit("/version");
    reveal_strlit("/all-versions");
    reveal_strlit("/import");
    assert("/import"@[1] == 'i' && "/path"@[1] == 'p' && "/query"@[1] == 'q');
    assert("/version"@[1] == 'v' && "/all-versions"@[1] == 'a');
    let all = seq![
        query_endpoint_view(),
        path_endpoint_view(),
        version_endpoint_view(),
        all_versions_endpoint_view(),
        import_endpoint_view(),
    ];
    let i: int = if url.path == "/query"@ {
        0
    } else if url.path == "/path"@ {
        1
    } else if url.path == "/version"@ {
        2
    } else if url.path == "/all-versions"@ {
        3
    } else if url.path == "/import"@ {
        4
    } else {
        5
    };
    requests_go_to_the_endpoint_with_their_path(all, subject, url, i);
    posts_go_to_the_endpoint_that_takes_them(
        all,
        subject,
        url,
        if url.path == "/import"@ {
            4
        } else {
            5
        },
    );
}

} // verus!
