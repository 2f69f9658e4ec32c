//! Class extenders: what is done to the resources of a class when they are fetched or changed.
use crate::errors::{AtomicError, AtomicResult};
use crate::urls;
use vstd::prelude::*;

verus! {

/// What works out a resource when it is fetched.
#[derive(Clone, Copy, Debug, PartialEq, Eq, Structural)]
pub enum ResourceGetHandler {
    Collection,
    Invite,
    ChatRoom,
    /// The plugin with this place among those that have been loaded.
    Plugin(usize),
}

/// What looks at a commit.
#[derive(Clone, Copy, Debug, PartialEq, Eq, Structural)]
pub enum CommitHandler {
    Invite,
    Message,
    /// The plugin with this place among those that have been loaded.
    Plugin(usize),
}

/// What is done to the resources of a class.
pub struct ClassExtender {
    pub class: String,
    pub on_resource_get: Option<ResourceGetHandler>,
    pub before_commit: Option<CommitHandler>,
    pub after_commit: Option<CommitHandler>,
}

/// What is handed to what works out a resource when it is fetched.
pub struct GetExtenderContext {
    pub url: crate::address::UrlParts,
    pub db_resource: crate::values::Resource,
    pub for_agent: crate::agents::ForAgent,
}

/// What is handed to what looks at a commit.
pub struct CommitExtenderContext {
    /// The address of the agent that signed the commit.
    pub signer: String,
    /// The commit before this one.
    pub previous_commit: Option<String>,
    pub resource: crate::values::Resource,
}

/// Whether an extender for a class is for a resource of these classes.
pub open spec fn is_for(class: Seq<char>, classes: Seq<Seq<char>>) -> bool {
    classes.contains(class)
}

/// An extender is for every resource that has its class among its classes, whatever the others are,
/// and for no other.
pub proof fn extenders_are_for_their_class(
    class: Seq<char>,
    before: Seq<Seq<char>>,
    after: Seq<Seq<char>>,
)
    ensures
        is_for(class, before + seq![class] + after),
        is_for(class, before + after) ==> is_for(class, before) || is_for(class, after),
        (forall|i: int| 0 <= i < before.len() ==> #[trigger] before[i] != class) ==> !is_for(
            class,
            before,
        ),
{
    let classes = before + seq![class] + after;
    assert(classes[before.len() as int] == class);
    let both = before + after;
    if both.contains(class) {
        let i = choose|i: int| 0 <= i < both.len() && both[i] == class;
        if i < before.len() {
            assert(before[i] == class);
        } else {
            assert(after[i - before.len()] == class);
        }
    }
}

impl ClassExtender {
    /// Whether the extender is for a resource. `is_a` are the classes of the resource, where it
    /// has any.
    pub fn resource_has_extender(&self, is_a: Option<AtomicResult<Vec<String>>>) -> (r: AtomicResult<
        bool,
    >)
        ensures
            match is_a {
                None => r == Ok::<bool, AtomicError>(false),
                Some(Err(e)) => r == Err::<bool, AtomicError>(e),
                Some(Ok(classes)) => r == Ok::<bool, AtomicError>(
                    is_for(self.class@, crate::text::list(classes@)),
                ),
            },
    {
        match is_a {
            None => Ok(false),
            Some(Err(e)) => Err(e),
            Some(Ok(classes)) => match crate::text::position(&classes, self.class.as_str()) {
                Some(i) => {
                    assert(crate::text::list(classes@)[i as int] == self.class@);
                    Ok(true)
                },
                None => Ok(false),
            },
        }
    }

    /// The extender that a plugin is. It is asked about everything.
    pub fn from_plugin(class_url: &str, place: usize) -> (r: ClassExtender)
        ensures
            r.class@ == class_url@,
            r.on_resource_get == Some(ResourceGetHandler::Plugin(place)),
            r.before_commit == Some(CommitHandler::Plugin(place)),
            r.after_commit == Some(CommitHandler::Plugin(place)),
    {
        ClassExtender {
            class: class_url.to_owned(),
            on_resource_get: Some(ResourceGetHandler::Plugin(place)),
            before_commit: Some(CommitHandler::Plugin(place)),
            after_commit: Some(CommitHandler::Plugin(place)),
        }
    }
}

/// The extender that fills collections.
pub fn build_collection_extender() -> (r: ClassExtender)
    ensures
        r.class@ == urls::COLLECTION@,
        r.on_resource_get == Some(ResourceGetHandler::Collection),
        r.before_commit is None,
        r.after_commit is None,
{
    ClassExtender {
        class: urls::COLLECTION.to_owned(),
        on_resource_get: Some(ResourceGetHandler::Collection),
        before_commit: None,
        after_commit: None,
    }
}

/// The extender that lets invites be accepted.
pub fn build_invite_extender() -> (r: ClassExtender)
    ensures
        r.class@ == urls::INVITE@,
        r.on_resource_get == Some(ResourceGetHandler::Invite),
        r.before_commit == Some(CommitHandler::Invite),
        r.after_commit is None,
{
    ClassExtender {
        class: urls::INVITE.to_owned(),
        on_resource_get: Some(ResourceGetHandler::Invite),
        before_commit: Some(CommitHandler::Invite),
        after_commit: None,
    }
}

/// The extender that lists the messages of chat rooms.
pub fn build_chatroom_extender() -> (r: ClassExtender)
    ensures
        r.class@ == urls::CHATROOM@,
        r.on_resource_get == Some(ResourceGetHandler::ChatRoom),
        r.before_commit is None,
        r.after_commit is None,
{
    ClassExtender {
        class: urls::CHATROOM.to_owned(),
        on_resource_get: Some(ResourceGetHandler::ChatRoom),
        before_commit: None,
        after_commit: None,
    }
}

/// The extender that tells chat rooms of new messages.
pub fn build_message_extender() -> (r: ClassExtender)
    ensures
        r.class@ == urls::MESSAGE@,
        r.on_resource_get is None,
        r.before_commit is None,
        r.after_commit == Some(CommitHandler::Message),
{
    ClassExtender {
        class: urls::MESSAGE.to_owned(),
        on_resource_get: None,
        before_commit: None,
        after_commit: Some(CommitHandler::Message),
    }
}

} // verus!
