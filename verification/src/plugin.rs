//! The frame in which a class extender runs as a plugin: what it is handed, and what it hands back.
use crate::json::{Json, JsonValue};
use crate::text::cat2;
use vstd::prelude::*;

verus! {

/// A resource as it is handed to a plugin and back: its address and its text.
pub struct ResourceJson {
    pub subject: String,
    pub json_ad: String,
}

/// What a plugin is handed when a resource is fetched.
pub struct GetContext {
    pub request_url: String,
    pub requested_subject: String,
    pub agent_subject: String,
    pub snapshot: ResourceJson,
}

/// What a plugin is handed before and after a commit.
pub struct CommitContext {
    pub subject: String,
    pub commit_json: String,
    pub snapshot: Option<ResourceJson>,
}

/// What a plugin hands back when a resource is fetched.
pub struct ResourceResponse {
    pub primary: ResourceJson,
    pub referenced: Vec<ResourceJson>,
}

/// A resource as a plugin works on it: its address, and its properties in JSON.
pub struct Resource {
    pub subject: String,
    pub props: Vec<(String, JsonValue)>,
}

/// What a [Resource] says.
pub struct PluginView {
    pub subject: Seq<char>,
    pub props: Seq<(Seq<char>, Json)>,
}

impl View for Resource {
    type V = PluginView;

    open spec fn view(&self) -> PluginView {
        PluginView { subject: self.subject@, props: crate::json::members_view(self.props@) }
    }
}

/// A change to a resource, as a plugin sees it.
pub struct Commit {
    /// The address of the resource that is changed.
    pub subject: String,
    /// When the commit was made, as a Unix timestamp.
    pub created_at: i64,
    /// The address of the agent that signed the commit.
    pub signer: String,
    /// The properties that get a value, in place of the one they had.
    pub set: Option<Vec<(String, JsonValue)>>,
    pub y_update: Option<Vec<(String, JsonValue)>>,
    /// The properties that are removed.
    pub remove: Option<Vec<String>>,
    /// Whether the resource is removed.
    pub destroy: Option<bool>,
    pub signature: Option<String>,
    /// The properties that get more elements.
    pub push: Option<Vec<(String, JsonValue)>>,
    /// The commit before this one.
    pub previous_commit: Option<String>,
    /// The address of the commit.
    pub url: Option<String>,
}

/// The resource in the text that a plugin is handed. The address comes with the text, not from it.
pub open spec fn decoded(subject: Seq<char>, json_ad: Seq<char>) -> Result<PluginView, Seq<char>> {
    match crate::json_text::json_read(json_ad) {
        Err(complaint) => Err("Invalid JSON: "@ + complaint),
        Ok(Json::Object(members)) => Ok(
            PluginView { subject, props: crate::assoc::without(members, "@id"@) },
        ),
        Ok(_) => Err("Resource is not a JSON object"@),
    }
}

/// A resource as a document: its properties and its address.
pub open spec fn document(resource: PluginView) -> Json {
    Json::Object(
        crate::assoc::put(resource.props, "@id"@, Json::Text(resource.subject)),
    )
}

/// Whether `after` has the address and the properties of `before`, other than one called `@id`.
pub open spec fn same_resource(before: PluginView, after: PluginView) -> bool {
    &&& after.subject == before.subject
    &&& forall|key: Seq<char>| #[trigger]
        crate::assoc::lookup(after.props, key) == (if key == "@id"@ {
            None
        } else {
            match crate::assoc::lookup(before.props, key) {
                Some(value) => Some(crate::json_text::settle(value)),
                None => None,
            }
        })
}

impl Resource {
    /// Reads the resource that a plugin is handed.
    pub fn try_from(resource_json: ResourceJson) -> (r: Result<Resource, String>)
        ensures
            match r {
                Ok(resource) => decoded(resource_json.subject@, resource_json.json_ad@) == Ok::<
                    PluginView,
                    Seq<char>,
                >(resource@) && crate::assoc::distinct(resource@.props),
                Err(e) => decoded(resource_json.subject@, resource_json.json_ad@) == Err::<
                    PluginView,
                    Seq<char>,
                >(e@),
            },
    {
        broadcast use crate::json::lemma_view_containers;

        match crate::json_text::read_json(resource_json.json_ad.as_str()) {
            Err(complaint) => Err(cat2("Invalid JSON: ", complaint.as_str())),
            Ok(JsonValue::Object(mut props)) => {
                let ghost members = crate::json::members_view(props@);
                let i = crate::assoc::place_of(&props, "@id");
                proof {
                    crate::assoc::lemma_place_is(members, "@id"@, i as int);
                    crate::assoc::without_then_lookup(members, "@id"@, "@id"@);
                }
                if i < props.len() {
                    props.remove(i);
                }
                assert(crate::json::members_view(props@) =~= crate::assoc::without(
                    members,
                    "@id"@,
                ));
                Ok(Resource { subject: resource_json.subject, props })
            },
            Ok(_) => Err("Resource is not a JSON object".to_owned()),
        }
    }

    /// The text of a resource. Reading it again gives the resource back.
    pub fn to_json(&self) -> (r: Result<String, String>)
        ensures
            match r {
                Ok(text) => text@ == crate::json_text::json_text(
                    crate::json_text::settle(document(self@)),
                ) && (crate::assoc::distinct(self@.props) && crate::json_text::nests_within(
                    crate::json_text::settle(document(self@)),
                    127,
                ) ==> decoded(self@.subject, text@) is Ok && same_resource(
                    self@,
                    decoded(self@.subject, text@)->Ok_0,
                )),
                Err(_) => false,
            },
    {
        broadcast use crate::json::lemma_view_containers;

        let mut props: Vec<(String, JsonValue)> = Vec::new();
        let mut i: usize = 0;
        assert(crate::json::members_view(props@) =~= Seq::empty());
        while i < self.props.len()
            invariant
                i <= self.props@.len(),
                crate::json::members_view(props@) == self@.props.take(i as int),
            decreases self.props@.len() - i,
        {
            let ghost before = crate::json::members_view(props@);
            props.push((self.props[i].0.clone(), self.props[i].1.copy()));
            assert(crate::json::members_view(props@) =~= before.push(self@.props[i as int]));
            assert(self@.props.take(i + 1) =~= self@.props.take(i as int).push(
                self@.props[i as int],
            ));
            i += 1;
        }
        assert(self@.props.take(i as int) =~= self@.props);
        let k = crate::assoc::place_of(&props, "@id");
        proof {
            crate::assoc::lemma_place_is(self@.props, "@id"@, k as int);
        }
        let id = ("@id".to_owned(), JsonValue::Text(self.subject.clone()));
        let ghost before = crate::json::members_view(props@);
        if k < props.len() {
            props.set(k, id);
        } else {
            props.push(id);
        }
        assert(crate::json::members_view(props@) =~= crate::assoc::put(
            before,
            "@id"@,
            Json::Text(self@.subject),
        ));
        let object = JsonValue::Object(props);
        assert(object@ == document(self@));
        match crate::json_text::write_json(&object) {
            Ok(text) => {
                proof {
                    if crate::assoc::distinct(self@.props) && crate::json_text::nests_within(
                        crate::json_text::settle(document(self@)),
                        127,
                    ) {
                        lemma_reads_back(self@, text@);
                    }
                }
                Ok(text)
            },
            Err(e) => Err(cat2("Serialize error: ", e.as_str())),
        }
    }
}

proof fn lemma_reads_back(resource: PluginView, text: Seq<char>)
    requires
        crate::assoc::distinct(resource.props),
        crate::json_text::keeps_members(document(resource)),
        crate::json_text::json_read(text) == Ok::<Json, Seq<char>>(
            crate::json_text::settle(document(resource)),
        ),
    ensures
        decoded(resource.subject, text) is Ok,
        same_resource(resource, decoded(resource.subject, text)->Ok_0),
{
    let id = Json::Text(resource.subject);
    let written = document(resource)->Object_0;
    let read = crate::json_text::settle(document(resource))->Object_0;
    crate::assoc::put_then_lookup(resource.props, "@id"@, id, "@id"@);
    assert(crate::assoc::distinct(written));
    let after = decoded(resource.subject, text)->Ok_0;
    assert forall|key: Seq<char>| #[trigger]
        crate::assoc::lookup(after.props, key) == (if key == "@id"@ {
            None
        } else {
            match crate::assoc::lookup(resource.props, key) {
                Some(value) => Some(crate::json_text::settle(value)),
                None => None,
            }
        }) by {
        crate::assoc::put_then_lookup(resource.props, "@id"@, id, key);
        crate::assoc::without_then_lookup(read, "@id"@, key);
    }
}

/// What a plugin does to the resources of a class and to commits on them.
pub trait ClassExtender {
    /// The address of the class.
    fn class_url() -> String;

    /// Is called when a resource is fetched, and may change it. An extender that does not say
    /// otherwise returns the resource as it is.
    fn on_resource_get<'a>(resource: &'a mut Resource) -> (r: Result<Option<&'a Resource>, String>)
        default_ensures
            r == Ok::<Option<&Resource>, String>(Some(old(resource))),
            *final(resource) == *old(resource),
    {
        Ok(Some(resource))
    }

    /// Is called before a commit is applied. Where it fails, the commit is not applied. An
    /// extender that does not say otherwise refuses no commit.
    fn before_commit(_commit: &Commit, _snapshot: Option<&Resource>) -> (r: Result<(), String>)
        default_ensures
            r == Ok::<(), String>(()),
    {
        Ok(())
    }

    /// Is called after a commit has been applied. Where it fails, the commit stays applied. An
    /// extender that does not say otherwise does not fail.
    fn after_commit(_commit: &Commit, _resource: Option<&Resource>) -> (r: Result<(), String>)
        default_ensures
            r == Ok::<(), String>(()),
    {
        Ok(())
    }
}

/// A class extender as a plugin.
pub struct PluginWrapper<T>(std::marker::PhantomData<T>);

/// What a plugin says of the snapshot that it is handed.
pub open spec fn decoded_snapshot(snapshot: Option<ResourceJson>) -> Result<
    Option<PluginView>,
    Seq<char>,
> {
    match snapshot {
        None => Ok(None),
        Some(s) => match decoded(s.subject@, s.json_ad@) {
            Ok(resource) => Ok(Some(resource)),
            Err(e) => Err(e),
        },
    }
}

/// What a resource that may be missing says.
pub open spec fn opt_resource(resource: Option<Resource>) -> Option<PluginView> {
    match resource {
        Some(r) => Some(r@),
        None => None,
    }
}

/// What a borrowed resource that may be missing says.
pub open spec fn opt_borrowed(resource: Option<&Resource>) -> Option<PluginView> {
    match resource {
        Some(r) => Some(r@),
        None => None,
    }
}

/// Reads the snapshot that a plugin is handed.
pub fn read_snapshot(snapshot: Option<ResourceJson>) -> (r: Result<Option<Resource>, String>)
    ensures
        match r {
            Ok(resource) => decoded_snapshot(snapshot) == Ok::<Option<PluginView>, Seq<char>>(
                opt_resource(resource),
            ),
            Err(e) => decoded_snapshot(snapshot) == Err::<Option<PluginView>, Seq<char>>(e@),
        },
{
    match snapshot {
        None => Ok(None),
        Some(s) => match Resource::try_from(s) {
            Ok(resource) => Ok(Some(resource)),
            Err(e) => Err(e),
        },
    }
}

/// The text that a plugin hands back for the resource that an extender returned.
pub fn encode_result(result: Result<Option<&Resource>, String>) -> (r: Result<
    Option<String>,
    String,
>)
    ensures
        match result {
            Err(e) => r == Err::<Option<String>, String>(e),
            Ok(None) => r == Ok::<Option<String>, String>(None),
            Ok(Some(resource)) => r is Ok && r->Ok_0 is Some && r->Ok_0->0@
                == crate::json_text::json_text(crate::json_text::settle(document(resource@))),
        },
{
    match result {
        Err(e) => Err(e),
        Ok(None) => Ok(None),
        Ok(Some(resource)) => match resource.to_json() {
            Ok(text) => Ok(Some(text)),
            Err(e) => Err(e),
        },
    }
}

/// What a plugin hands back: the text of the resource that the extender returned, under the address
/// that its own resource has, and no other resources.
pub open spec fn answer_of(
    result: Result<Option<Seq<char>>, Seq<char>>,
    subject: Seq<char>,
    r: Result<Option<ResourceResponse>, String>,
) -> bool {
    match result {
        Err(e) => r matches Err(complaint) && complaint@ == e,
        Ok(None) => r matches Ok(None),
        Ok(Some(json_ad)) => r matches Ok(Some(response)) && response.primary.subject@ == subject
            && response.primary.json_ad@ == json_ad && response.referenced@.len() == 0,
    }
}

/// Makes what a plugin hands back.
pub fn answer(result: Result<Option<String>, String>, subject: String) -> (r: Result<
    Option<ResourceResponse>,
    String,
>)
    ensures
        answer_of(
            match result {
                Err(e) => Err(e@),
                Ok(None) => Ok(None),
                Ok(Some(json_ad)) => Ok(Some(json_ad@)),
            },
            subject@,
            r,
        ),
{
    match result {
        Err(e) => Err(e),
        Ok(None) => Ok(None),
        Ok(Some(json_ad)) => Ok(
            Some(
                ResourceResponse {
                    primary: ResourceJson { subject, json_ad },
                    referenced: Vec::new(),
                },
            ),
        ),
    }
}

/// The text of what an extender returned.
pub open spec fn encoded(out: Result<Option<&Resource>, String>) -> Result<
    Option<Seq<char>>,
    Seq<char>,
> {
    match out {
        Err(e) => Err(e@),
        Ok(None) => Ok(None),
        Ok(Some(resource)) => Ok(
            Some(crate::json_text::json_text(crate::json_text::settle(document(resource@)))),
        ),
    }
}

impl<T: ClassExtender> PluginWrapper<T> {
    /// The address of the class that the extender is for.
    pub fn class_url() -> (r: String)
        ensures
            call_ensures(T::class_url, (), r),
    {
        T::class_url()
    }

    /// Lets the extender change a resource that is fetched.
    pub fn on_resource_get(ctx: GetContext) -> (r: Result<Option<ResourceResponse>, String>)
        ensures
            decoded(ctx.snapshot.subject@, ctx.snapshot.json_ad@) matches Err(e) ==> r is Err
                && r->Err_0@ == e,
            decoded(ctx.snapshot.subject@, ctx.snapshot.json_ad@) matches Ok(v) ==> exists|
                resource: &mut Resource,
                out: Result<Option<&Resource>, String>,
            |
                (*resource)@ == v && #[trigger] call_ensures(T::on_resource_get, (resource,), out)
                    && answer_of(encoded(out), (*final(resource))@.subject, r),
    {
        let mut resource = match Resource::try_from(ctx.snapshot) {
            Ok(resource) => resource,
            Err(e) => {
                return Err(e);
            },
        };
        let out = T::on_resource_get(&mut resource);
        assert(exists|m: &mut Resource| call_ensures(T::on_resource_get, (m,), out));
        let result = encode_result(out);
        answer(result, resource.subject)
    }

    /// Lets the extender refuse a commit. `commit` is what was read from the text of the commit.
    pub fn before_commit(
        commit: Result<Commit, String>,
        snapshot: Option<ResourceJson>,
    ) -> (r: Result<(), String>)
        ensures
            match (commit, decoded_snapshot(snapshot)) {
                (Err(e), _) => r == Err::<(), String>(e),
                (Ok(_), Err(e)) => r is Err && r->Err_0@ == e,
                (Ok(c), Ok(v)) => exists|s: Option<&Resource>|
                    opt_borrowed(s) == v && #[trigger] call_ensures(T::before_commit, (&c, s), r),
            },
    {
        match commit {
            Err(e) => Err(e),
            Ok(c) => match read_snapshot(snapshot) {
                Err(e) => Err(e),
                Ok(resource) => {
                    let s = resource.as_ref();
                    let r = T::before_commit(&c, s);
                    assert(call_ensures(T::before_commit, (&c, s), r));
                    r
                },
            },
        }
    }

    /// Tells the extender of a commit that has been applied. `commit` is what was read from the
    /// text of the commit.
    pub fn after_commit(
        commit: Result<Commit, String>,
        snapshot: Option<ResourceJson>,
    ) -> (r: Result<(), String>)
        ensures
            match (commit, decoded_snapshot(snapshot)) {
                (Err(e), _) => r == Err::<(), String>(e),
                (Ok(_), Err(e)) => r is Err && r->Err_0@ == e,
                (Ok(c), Ok(v)) => exists|s: Option<&Resource>|
                    opt_borrowed(s) == v && #[trigger] call_ensures(T::after_commit, (&c, s), r),
            },
    {
        match commit {
            Err(e) => Err(e),
            Ok(c) => match read_snapshot(snapshot) {
                Err(e) => Err(e),
                Ok(resource) => {
                    let s = resource.as_ref();
                    let r = T::after_commit(&c, s);
                    assert(call_ensures(T::after_commit, (&c, s), r));
                    r
                },
            },
        }
    }
}

/// A plugin is handed the properties that stand in the text, under their names, but for `@id`: the
/// address is the one that came with the text. A text that is no object is refused.
pub proof fn plugins_get_the_properties_in_the_text(
    subject: Seq<char>,
    json_ad: Seq<char>,
    key: Seq<char>,
)
    ensures
        match (crate::json_text::json_read(json_ad), decoded(subject, json_ad)) {
            (Ok(Json::Object(members)), Ok(resource)) => {
                &&& resource.subject == subject
                &&& crate::assoc::distinct(members) ==> crate::assoc::lookup(
                    resource.props,
                    key,
                ) == (if key == "@id"@ {
                    None
                } else {
                    crate::assoc::lookup(members, key)
                })
            },
            (Ok(json), Err(_)) => !(json is Object),
            (Err(complaint), Err(e)) => complaint.is_suffix_of(e),
            _ => false,
        },
{
    match crate::json_text::json_read(json_ad) {
        Ok(Json::Object(members)) => {
            if crate::assoc::distinct(members) {
                crate::assoc::without_then_lookup(members, "@id"@, key);
            }
        },
        Ok(_) => {},
        Err(complaint) => {
            let e = decoded(subject, json_ad)->Err_0;
            assert(e.subrange(e.len() - complaint.len(), e.len() as int) =~= complaint);
        },
    }
}

/// A plugin hands back what its extender returned: the text of the resource under the address that it
/// has, and nothing beside it; nothing where nothing was returned; and the error where it failed.
pub proof fn plugins_hand_back_what_was_returned(
    out: Result<Option<&Resource>, String>,
    subject: Seq<char>,
    r: Result<Option<ResourceResponse>, String>,
)
    requires
        answer_of(encoded(out), subject, r),
    ensures
        out matches Err(e) ==> (r matches Err(complaint) && complaint@ == e@),
        out matches Ok(None) ==> r matches Ok(None),
        out matches Ok(Some(resource)) ==> (r matches Ok(Some(response)) && {
            &&& response.primary.subject@ == subject
            &&& response.primary.json_ad@ == crate::json_text::json_text(
                crate::json_text::settle(document(resource@)),
            )
            &&& response.referenced@.len() == 0
        }),
{
}

/// A plugin is handed a snapshot of the resource where there is one, as it stands in its text, and
/// none where there is none.
pub proof fn plugins_get_the_snapshot_that_there_is(snapshot: Option<ResourceJson>)
    ensures
        snapshot is None ==> decoded_snapshot(snapshot) == Ok::<Option<PluginView>, Seq<char>>(
            None,
        ),
        snapshot matches Some(s) ==> match decoded(s.subject@, s.json_ad@) {
            Ok(resource) => decoded_snapshot(snapshot) == Ok::<Option<PluginView>, Seq<char>>(
                Some(resource),
            ),
            Err(e) => decoded_snapshot(snapshot) == Err::<Option<PluginView>, Seq<char>>(e),
        },
{
}

/// The document of a resource has its address under `@id`, whatever stood there, and its properties
/// under their names.
pub proof fn documents_have_address_and_properties(resource: PluginView, key: Seq<char>)
    ensures
        document(resource) matches Json::Object(members) && crate::assoc::lookup(members, key) == (
        if key == "@id"@ {
            Some(Json::Text(resource.subject))
        } else {
            crate::assoc::lookup(resource.props, key)
        }),
{
    crate::assoc::put_then_lookup(
        resource.props,
        "@id"@,
        Json::Text(resource.subject),
        key,
    );
}

} // verus!
