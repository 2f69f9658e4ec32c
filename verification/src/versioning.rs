//! Versions of a resource, made from the commits on it; and paths through resources.
use crate::address::{UrlParts, find_param, percent_encode};
use crate::endpoints::{Assigned, AssignedView, Assignments, AssignmentsView};
use crate::errors::{AtomicError, AtomicResult};
use crate::query::Query;
use crate::text::{cat2, cat3, same};
use crate::urls;
use crate::values::{DataType, DataTypeView, PropValue, PropValueView, Resource};
use vstd::prelude::*;

verus! {

/// The address of the commit whose version is asked for. Without it the endpoint is shown.
pub fn handle_version_request(url: &UrlParts) -> (r: Option<String>)
    ensures
        crate::text::opt(r) == crate::address::last_param(url@.pairs, "commit"@, "commit"@),
{
    find_param(&url.pairs, "commit", "commit")
}

/// The address of the version that a commit made.
pub open spec fn version_url(server_url: Seq<char>, commit_url: Seq<char>) -> Seq<char> {
    server_url + "/versioning?commit="@ + crate::address::percent_encoded(
        vstd::utf8::encode_utf8(commit_url),
    )
}

/// The address of the version that a commit made.
pub fn construct_version_endpoint_url(server_url: AtomicResult<String>, commit_url: &str) -> (r:
    AtomicResult<String>)
    ensures
        match server_url {
            Ok(server) => r is Ok && r->Ok_0@ == version_url(server@, commit_url@),
            Err(e) => r == Err::<String, AtomicError>(e),
        },
{
    match server_url {
        Err(e) => Err(e),
        Ok(server) => {
            let encoded = percent_encode(commit_url);
            Ok(cat3(server.as_str(), "/versioning?commit=", encoded.as_str()))
        },
    }
}

/// A collection that is to be filled.
pub struct CollectionBuilder {
    pub subject: String,
    pub property: Option<String>,
    pub value: Option<String>,
    pub sort_by: Option<String>,
    pub sort_desc: bool,
    pub current_page: usize,
    pub page_size: usize,
    pub name: Option<String>,
    pub include_nested: bool,
    pub include_external: bool,
}

/// The collection of the commits on a resource.
pub open spec fn is_versions_collection(
    builder: CollectionBuilder,
    subject: Seq<char>,
    target: Seq<char>,
) -> bool {
    &&& builder.subject@ == subject
    &&& crate::text::opt(builder.property) == Some(urls::SUBJECT@)
    &&& crate::text::opt(builder.value) == Some(target)
    &&& builder.sort_by is None
    &&& !builder.sort_desc
    &&& builder.current_page == 0
    &&& builder.page_size == 20
    &&& crate::text::opt(builder.name) == Some("Versions of "@ + target)
    &&& !builder.include_nested
    &&& !builder.include_external
}

/// The collection of the commits on the resource that is asked for. Without one the endpoint is
/// shown.
pub fn handle_all_versions_request(url: &UrlParts) -> (r: Option<CollectionBuilder>)
    ensures
        match crate::address::last_param(url@.pairs, "subject"@, "subject"@) {
            Some(target) => r is Some && is_versions_collection(r->0, url@.text, target),
            None => r is None,
        },
{
    match find_param(&url.pairs, "subject", "subject") {
        None => None,
        Some(target) => {
            let name = cat2("Versions of ", target.as_str());
            Some(
                CollectionBuilder {
                    subject: url.text.clone(),
                    property: Some(urls::SUBJECT.to_owned()),
                    value: Some(target),
                    sort_by: None,
                    sort_desc: false,
                    current_page: 0,
                    page_size: 20,
                    name: Some(name),
                    include_nested: false,
                    include_external: false,
                },
            )
        },
    }
}

/// The addresses of the versions that some commits made.
pub fn version_urls(server_url: &str, commit_urls: &Vec<String>) -> (r: Vec<String>)
    ensures
        crate::text::list(r@) == crate::text::list(commit_urls@).map_values(
            |c: Seq<char>| version_url(server_url@, c),
        ),
{
    let ghost wanted = crate::text::list(commit_urls@).map_values(
        |c: Seq<char>| version_url(server_url@, c),
    );
    let mut r: Vec<String> = Vec::new();
    let mut i: usize = 0;
    while i < commit_urls.len()
        invariant
            i <= commit_urls@.len(),
            r@.len() == i,
            forall|k: int|
                0 <= k < i ==> (#[trigger] r@[k])@ == version_url(server_url@, commit_urls@[k]@),
        decreases commit_urls@.len() - i,
    {
        let encoded = percent_encode(commit_urls[i].as_str());
        r.push(cat3(server_url, "/versioning?commit=", encoded.as_str()));
        i += 1;
    }
    assert(crate::text::list(r@) =~= wanted);
    r
}

/// The query for the commits on a resource, from old to new.
pub fn get_commits_for_resource(subject: &str, mut q: Query) -> (r: Query)
    ensures
        crate::text::opt(r.property) == Some(urls::SUBJECT@),
        r.value is Some && r.value->0@ == (PropValueView::Literal {
            text: subject@,
            datatype: DataTypeView::String,
        }),
        crate::text::opt(r.sort_by) == Some(urls::CREATED_AT@),
        r.limit == q.limit,
        r.start_val == q.start_val,
        r.end_val == q.end_val,
        r.offset == q.offset,
        !r.sort_desc,
        r.include_external == q.include_external,
        r.include_nested == q.include_nested,
        r.for_agent == q.for_agent,
{
    q.property = Some(urls::SUBJECT.to_owned());
    q.value = Some(PropValue::Literal { text: subject.to_owned(), datatype: DataType::String });
    q.sort_by = Some(urls::CREATED_AT.to_owned());
    q.sort_desc = false;
    q
}

/// The first commit on a resource.
pub fn get_initial_commit_for_resource<T>(commits: Vec<T>) -> (r: AtomicResult<T>)
    ensures
        if commits@.len() == 0 {
            r is Err && r->Err_0@ == crate::errors::missing("No commits found for this resource"@)
        } else {
            r == Ok::<T, AtomicError>(commits@[0])
        },
{
    let mut commits = commits;
    if commits.len() == 0 {
        Err(AtomicError::not_found("No commits found for this resource".to_owned()))
    } else {
        Ok(commits.remove(0))
    }
}

/// What is to be done next to make a version of a resource.
#[derive(Clone, Copy, Debug, PartialEq, Eq, Structural)]
pub enum VersionStep {
    /// Get the commit whose version is asked for.
    GetCommit,
    /// Find out which resource it changed.
    GetSubject,
    /// Get that resource, as it is now.
    GetResource,
    /// See whether whoever asks may read it.
    CheckRead,
    /// Get all commits on it.
    GetCommits,
    /// Make the changes of the commit with this place.
    Apply(usize),
    /// Nothing: the version is made.
    Done,
    /// Nothing: the last action failed.
    Failed,
}

/// The commits on a resource: their addresses, where they have one.
pub open spec fn urls_view(commits: Seq<Option<String>>) -> Seq<Option<Seq<char>>> {
    commits.map_values(|c: Option<String>| crate::text::opt(c))
}

/// The place of the first commit from `i` on that has an address, or the number of commits.
pub open spec fn addressed_from(commits: Seq<Option<Seq<char>>>, i: int) -> int
    decreases commits.len() - i,
{
    if i < 0 || i >= commits.len() {
        commits.len() as int
    } else if commits[i] is Some {
        i
    } else {
        addressed_from(commits, i + 1)
    }
}

/// What is to be done from the commit with place `i` on.
pub open spec fn apply_from(commits: Seq<Option<Seq<char>>>, i: int) -> VersionStep {
    let k = addressed_from(commits, i);
    if k < commits.len() {
        VersionStep::Apply(k as usize)
    } else {
        VersionStep::Done
    }
}

/// What is to be done after an action to make the version that the commit `target` made. Commits
/// without an address are passed over; those after the target are not applied.
pub open spec fn version_next(
    commits: Seq<Option<Seq<char>>>,
    target: Seq<char>,
    step: VersionStep,
    worked: bool,
) -> VersionStep {
    match (step, worked) {
        (VersionStep::Done, _) => step,
        (_, false) => VersionStep::Failed,
        (VersionStep::GetCommit, true) => VersionStep::GetSubject,
        (VersionStep::GetSubject, true) => VersionStep::GetResource,
        (VersionStep::GetResource, true) => VersionStep::CheckRead,
        (VersionStep::CheckRead, true) => VersionStep::GetCommits,
        (VersionStep::GetCommits, true) => apply_from(commits, 0),
        (VersionStep::Apply(i), true) => if i < commits.len() && commits[i as int] == Some(target) {
            VersionStep::Done
        } else {
            apply_from(commits, i + 1)
        },
        (VersionStep::Failed, true) => step,
    }
}

fn find_addressed(commits: &Vec<Option<String>>, from: usize) -> (r: VersionStep)
    ensures
        r == apply_from(urls_view(commits@), from as int),
{
    let ghost all = urls_view(commits@);
    let mut i: usize = from;
    while i < commits.len()
        invariant
            all == urls_view(commits@),
            i <= commits@.len() || i == from,
            addressed_from(all, from as int) == addressed_from(all, i as int),
        decreases commits@.len() - i,
    {
        assert(all[i as int] == crate::text::opt(commits@[i as int]));
        if commits[i].is_some() {
            return VersionStep::Apply(i);
        }
        i += 1;
    }
    VersionStep::Done
}

/// What is to be done after an action to make a version of a resource.
pub fn construct_version(
    commits: &Vec<Option<String>>,
    target: &str,
    step: VersionStep,
    worked: bool,
) -> (r: VersionStep)
    ensures
        r == version_next(urls_view(commits@), target@, step, worked),
{
    let n: usize = commits.len();
    match (step, worked) {
        (VersionStep::Done, _) => step,
        (_, false) => VersionStep::Failed,
        (VersionStep::GetCommit, true) => VersionStep::GetSubject,
        (VersionStep::GetSubject, true) => VersionStep::GetResource,
        (VersionStep::GetResource, true) => VersionStep::CheckRead,
        (VersionStep::CheckRead, true) => VersionStep::GetCommits,
        (VersionStep::GetCommits, true) => find_addressed(commits, 0),
        (VersionStep::Apply(i), true) => {
            if i < n {
                assert(urls_view(commits@)[i as int] == crate::text::opt(commits@[i as int]));
                if let Some(url) = &commits[i] {
                    if same(url.as_str(), target) {
                        return VersionStep::Done;
                    }
                }
                find_addressed(commits, i + 1)
            } else {
                VersionStep::Done
            }
        },
        (VersionStep::Failed, true) => step,
    }
}

/// What is to be done after a number of actions.
pub open spec fn version_after(
    commits: Seq<Option<Seq<char>>>,
    target: Seq<char>,
    events: Seq<bool>,
) -> VersionStep
    decreases events.len(),
{
    if events.len() == 0 {
        VersionStep::GetCommit
    } else {
        version_next(
            commits,
            target,
            version_after(commits, target, events.drop_last()),
            events.last(),
        )
    }
}

/// Whether it has been found that whoever asks may read the resource.
pub open spec fn read_checked(step: VersionStep) -> bool {
    match step {
        VersionStep::GetCommits => true,
        VersionStep::Apply(_) => true,
        VersionStep::Done => true,
        _ => false,
    }
}

/// A version is made only for those who may read the resource.
pub proof fn versions_are_for_readers(
    commits: Seq<Option<Seq<char>>>,
    target: Seq<char>,
    events: Seq<bool>,
)
    requires
        read_checked(version_after(commits, target, events)),
    ensures
        exists|k: int|
            0 <= k < events.len() && #[trigger] version_after(
                commits,
                target,
                events.take(k),
            ) is CheckRead && events[k],
    decreases events.len(),
{
    let before = events.drop_last();
    let last = events.len() - 1;
    assert(events.take(last) =~= before);
    if read_checked(version_after(commits, target, before)) {
        versions_are_for_readers(commits, target, before);
        let k = choose|k: int|
            0 <= k < before.len() && #[trigger] version_after(
                commits,
                target,
                before.take(k),
            ) is CheckRead && before[k];
        assert(before.take(k) =~= events.take(k));
        assert(version_after(commits, target, events.take(k)) is CheckRead);
        assert(events[k]);
    } else {
        assert(version_after(commits, target, events.take(last)) is CheckRead);
        assert(events[last]);
    }
}

proof fn lemma_addressed(commits: Seq<Option<Seq<char>>>, i: int)
    requires
        0 <= i <= commits.len(),
    ensures
        i <= addressed_from(commits, i) <= commits.len(),
        addressed_from(commits, i) < commits.len() ==> commits[addressed_from(commits, i)] is Some,
        forall|j: int| i <= j < addressed_from(commits, i) ==> (#[trigger] commits[j]) is None,
    decreases commits.len() - i,
{
    if i < commits.len() && !(commits[i] is Some) {
        lemma_addressed(commits, i + 1);
    }
}

/// No commit that comes after one with the address that is asked for is applied.
pub proof fn later_commits_are_not_applied(
    commits: Seq<Option<Seq<char>>>,
    target: Seq<char>,
    events: Seq<bool>,
    t: int,
)
    requires
        commits.len() <= usize::MAX,
        0 <= t < commits.len(),
        commits[t] == Some(target),
    ensures
        version_after(commits, target, events) matches VersionStep::Apply(i) ==> i <= t,
    decreases events.len(),
{
    if events.len() > 0 {
        let before = version_after(commits, target, events.drop_last());
        later_commits_are_not_applied(commits, target, events.drop_last(), t);
        lemma_addressed(commits, 0);
        if let VersionStep::Apply(i) = before {
            if i < t {
                lemma_addressed(commits, i + 1);
                if addressed_from(commits, i + 1) > t {
                    assert(commits[t] is None);
                }
            }
        }
        if addressed_from(commits, 0) > t {
            assert(commits[t] is None);
        }
    }
}

/// How a version is gotten: from what was kept under its address, or by making it and keeping it
/// there.
#[derive(Clone, Copy, Debug, PartialEq, Eq, Structural)]
pub enum GetVersion {
    Cached,
    ConstructAndKeep,
}

/// How a version is gotten.
pub fn get_version(cached: bool) -> (r: GetVersion)
    ensures
        r == (if cached {
            GetVersion::Cached
        } else {
            GetVersion::ConstructAndKeep
        }),
{
    if cached {
        GetVersion::Cached
    } else {
        GetVersion::ConstructAndKeep
    }
}

/// What is kept of a version that has been made: its properties, under the address of the version.
/// The version itself has the address of the resource, which is not touched.
pub fn version_to_keep(version: Resource, server_url: AtomicResult<String>, commit_url: &str) -> (r:
    AtomicResult<Resource>)
    ensures
        match server_url {
            Ok(server) => r is Ok && r->Ok_0@ == crate::endpoints::readdressed(
                version@,
                version_url(server@, commit_url@),
            ),
            Err(e) => r == Err::<Resource, AtomicError>(e),
        },
{
    match construct_version_endpoint_url(server_url, commit_url) {
        Ok(subject) => Ok(Resource { subject, propvals: version.propvals }),
        Err(e) => Err(e),
    }
}

/// The path that is to be followed. Without it the endpoint is shown.
pub fn handle_path_request(url: &UrlParts) -> (r: Option<String>)
    ensures
        crate::text::opt(r) == crate::address::last_param(url@.pairs, "path"@, "path"@),
{
    find_param(&url.pairs, "path", "path")
}

/// The answer where a path ends at a value: the atom, under the address that was asked for.
pub fn path_to_atom(url: &UrlParts, subject: &str, property: &str, value: &str) -> (r: Assignments)
    ensures
        r@ == (AssignmentsView {
            subject: url@.text,
            values: seq![
                (urls::ATOM_SUBJECT@, AssignedView::Text(subject@)),
                (urls::ATOM_PROPERTY@, AssignedView::Text(property@)),
                (urls::ATOM_VALUE@, AssignedView::Text(value@)),
            ],
        }),
{
    let mut values: Vec<(&'static str, Assigned)> = Vec::new();
    values.push((urls::ATOM_SUBJECT, Assigned::Text(subject.to_owned())));
    values.push((urls::ATOM_PROPERTY, Assigned::Text(property.to_owned())));
    values.push((urls::ATOM_VALUE, Assigned::Text(value.to_owned())));
    let r = Assignments { subject: url.text.clone(), values };
    assert(r@.values =~= seq![
        (urls::ATOM_SUBJECT@, AssignedView::Text(subject@)),
        (urls::ATOM_PROPERTY@, AssignedView::Text(property@)),
        (urls::ATOM_VALUE@, AssignedView::Text(value@)),
    ]);
    r
}

/// Whether the changes of the commit with place `j` have been made.
pub open spec fn applied(
    commits: Seq<Option<Seq<char>>>,
    target: Seq<char>,
    events: Seq<bool>,
    j: int,
) -> bool {
    exists|k: int|
        0 <= k < events.len() && #[trigger] version_after(commits, target, events.take(k))
            == VersionStep::Apply(j as usize) && events[k]
}

proof fn lemma_applied_stays(
    commits: Seq<Option<Seq<char>>>,
    target: Seq<char>,
    events: Seq<bool>,
    j: int,
)
    requires
        events.len() > 0,
        applied(commits, target, events.drop_last(), j),
    ensures
        applied(commits, target, events, j),
{
    let before = events.drop_last();
    let k = choose|k: int|
        0 <= k < before.len() && #[trigger] version_after(commits, target, before.take(k))
            == VersionStep::Apply(j as usize) && before[k];
    assert(before.take(k) =~= events.take(k));
    assert(version_after(commits, target, events.take(k)) == VersionStep::Apply(j as usize));
    assert(events[k] == before[k]);
}

/// A version has the changes of all commits that have an address, up to the one that made it: a
/// commit is passed over only where one before it, or it, is the one that made the version. Commits
/// are applied in their order.
pub proof fn versions_have_all_changes_before_them(
    commits: Seq<Option<Seq<char>>>,
    target: Seq<char>,
    events: Seq<bool>,
    j: int,
)
    requires
        commits.len() <= usize::MAX,
        0 <= j < commits.len(),
        commits[j] is Some,
        forall|i: int| 0 <= i < j ==> #[trigger] commits[i] != Some(target),
    ensures
        version_after(commits, target, events) is Done ==> applied(commits, target, events, j),
        version_after(commits, target, events) matches VersionStep::Apply(i) ==> i < commits.len()
            && commits[i as int] is Some && (j < i ==> applied(commits, target, events, j)),
    decreases events.len(),
{
    if events.len() > 0 {
        let before = events.drop_last();
        let last = events.len() - 1;
        let earlier = version_after(commits, target, before);
        versions_have_all_changes_before_them(commits, target, before, j);
        assert(events.take(last) =~= before);
        if applied(commits, target, before, j) {
            lemma_applied_stays(commits, target, events, j);
        }
        lemma_addressed(commits, 0);
        if earlier is GetCommits {
            if addressed_from(commits, 0) > j {
                assert(commits[j] is None);
            }
        }
        if let VersionStep::Apply(i) = earlier {
            lemma_addressed(commits, i + 1);
            if i == j && events.last() {
                assert(version_after(commits, target, events.take(last)) == VersionStep::Apply(
                    j as usize,
                ));
                assert(events[last]);
            }
            if i < j {
                assert(commits[i as int] != Some(target));
                if addressed_from(commits, i + 1) > j {
                    assert(commits[j] is None);
                }
            }
        }
    }
}

proof fn lemma_version_left(
    commits: Seq<Option<Seq<char>>>,
    target: Seq<char>,
    events: Seq<bool>,
)
    requires
        commits.len() <= usize::MAX,
        forall|k: int| 0 <= k < events.len() ==> #[trigger] events[k],
    ensures
        match version_after(commits, target, events) {
            VersionStep::GetCommit => events.len() == 0,
            VersionStep::GetSubject => events.len() == 1,
            VersionStep::GetResource => events.len() == 2,
            VersionStep::CheckRead => events.len() == 3,
            VersionStep::GetCommits => events.len() == 4,
            VersionStep::Apply(i) => events.len() <= 5 + i && i < commits.len(),
            VersionStep::Done => true,
            VersionStep::Failed => false,
        },
    decreases events.len(),
{
    if events.len() > 0 {
        let before = events.drop_last();
        assert forall|k: int| 0 <= k < before.len() implies #[trigger] before[k] by {
            assert(events[k]);
        }
        lemma_version_left(commits, target, before);
        assert(events[events.len() - 1]);
        lemma_addressed(commits, 0);
        if let VersionStep::Apply(i) = version_after(commits, target, before) {
            lemma_addressed(commits, i + 1);
        }
    }
}

/// A version is made where everything works.
pub proof fn versions_are_made_where_everything_works(
    commits: Seq<Option<Seq<char>>>,
    target: Seq<char>,
    events: Seq<bool>,
)
    requires
        commits.len() <= usize::MAX,
        forall|k: int| 0 <= k < events.len() ==> #[trigger] events[k],
        events.len() >= 5 + commits.len(),
    ensures
        version_after(commits, target, events) is Done,
{
    lemma_version_left(commits, target, events);
}

/// Where an action fails, no version is made, unless it has been made already; and no version fails
/// without that.
pub proof fn failures_stop_a_version(
    commits: Seq<Option<Seq<char>>>,
    target: Seq<char>,
    events: Seq<bool>,
    event: bool,
)
    ensures
        !(version_after(commits, target, events) is Done) ==> version_after(
            commits,
            target,
            events.push(false),
        ) is Failed,
        version_after(commits, target, events) is Failed ==> version_after(
            commits,
            target,
            events.push(event),
        ) is Failed,
        version_after(commits, target, events) is Done ==> version_after(
            commits,
            target,
            events.push(event),
        ) is Done,
        version_after(commits, target, events.push(true)) is Failed ==> version_after(
            commits,
            target,
            events,
        ) is Failed,
{
    assert(events.push(event).drop_last() =~= events);
    assert(events.push(false).drop_last() =~= events);
    assert(events.push(true).drop_last() =~= events);
}

/// The address of a version starts with the address of the server, and tells versions of different
/// commits apart wherever the encoding of their addresses does.
pub proof fn versions_have_addresses_of_their_own(
    server_url: Seq<char>,
    a: Seq<char>,
    b: Seq<char>,
)
    ensures
        server_url.is_prefix_of(version_url(server_url, a)),
        crate::address::percent_encoded(vstd::utf8::encode_utf8(a)).is_suffix_of(
            version_url(server_url, a),
        ),
        version_url(server_url, a) == version_url(server_url, b) ==> crate::address::percent_encoded(
            vstd::utf8::encode_utf8(a),
        ) == crate::address::percent_encoded(vstd::utf8::encode_utf8(b)),
{
    let left = server_url + "/versioning?commit="@;
    let x = crate::address::percent_encoded(vstd::utf8::encode_utf8(a));
    let y = crate::address::percent_encoded(vstd::utf8::encode_utf8(b));
    assert((left + x).skip(left.len() as int) =~= x);
    assert((left + y).skip(left.len() as int) =~= y);
    let url = version_url(server_url, a);
    assert(url.subrange(0, server_url.len() as int) =~= server_url);
    assert(url.subrange(url.len() - x.len(), url.len() as int) =~= x);
}

/// The collection of the versions of a resource lists what has that resource as its subject, under the
/// address that was asked for.
pub proof fn versions_are_those_of_the_resource(
    builder: CollectionBuilder,
    subject: Seq<char>,
    target: Seq<char>,
)
    requires
        is_versions_collection(builder, subject, target),
    ensures
        builder.subject@ == subject,
        builder.property matches Some(property) && property@ == urls::SUBJECT@,
        builder.value matches Some(value) && value@ == target,
        builder.name matches Some(name) && target.is_suffix_of(name@),
        builder.sort_by is None && !builder.sort_desc,
        builder.current_page == 0 && builder.page_size == 20,
        !builder.include_nested && !builder.include_external,
{
    let name = "Versions of "@ + target;
    assert(name.subrange(name.len() - target.len(), name.len() as int) =~= target);
}

} // verus!
