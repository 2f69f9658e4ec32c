//! Fetching a resource: by an endpoint, or from the database, with the rights of whoever asks and
//! what the extenders of its class add.
use crate::address::{parse_url, trim_slash, without_query};
use crate::endpoints::{Endpoint, EndpointView, is_endpoint, set_response_subject};
use crate::errors::{AtomicResult, ErrorView};
use crate::values::{ResourceResponse, ResponseView};
use vstd::prelude::*;

verus! {

/// What is returned in the end.
#[derive(Clone, Copy, Debug, PartialEq, Eq, Structural)]
pub enum Fetched {
    /// What the endpoint answers, under the address that was asked for.
    Endpoint,
    /// The resource as it is in the database, under its own address, marked as incomplete.
    Incomplete,
    /// What the extender answers, under the address that was asked for.
    Extended,
    /// The resource as it is in the database, under the address that was asked for.
    Plain,
}

/// What is to be done next to fetch a resource.
#[derive(Clone, Copy, Debug, PartialEq, Eq, Structural)]
pub enum FetchStep {
    /// Let the endpoint answer.
    CallEndpoint,
    /// Get the resource from the database.
    GetResource,
    /// See whether whoever asks may read it.
    CheckRead,
    /// See whether the extender with this place is for it.
    HasExtender(usize),
    /// Mark it as incomplete.
    SetIncomplete,
    /// Let the extender with this place answer.
    CallExtender(usize),
    /// Nothing: this is returned.
    Return(Fetched),
    /// Nothing: the last action failed.
    Failed,
}

/// How an action turned out.
#[derive(Clone, Copy, Debug, PartialEq, Eq, Structural)]
pub enum FetchEvent {
    /// Whether an extender is for the resource.
    Matches(bool),
    /// Whether any other action worked, or that the test of an extender did not.
    Worked(bool),
}

/// Under which address a resource is looked up in the database: without query parameters, and
/// without a slash at the end.
pub open spec fn lookup_subject(subject: Seq<char>) -> Seq<char> {
    crate::address::unslashed(crate::address::url_without_query(subject))
}

/// Whether one of the endpoints has this path.
pub open spec fn has_endpoint(endpoints: Seq<EndpointView>, path: Seq<char>) -> bool {
    exists|i: int| 0 <= i < endpoints.len() && (#[trigger] endpoints[i]).path == path
}

/// What is to be done first, and under which address the resource is looked up.
pub open spec fn fetch_start(endpoints: Seq<EndpointView>, subject: Seq<char>) -> Result<
    (FetchStep, Seq<char>),
    ErrorView,
> {
    match crate::address::url_parts(subject) {
        Err(complaint) => Err(crate::errors::other(complaint)),
        Ok(url) => Ok(
            (
                if has_endpoint(endpoints, url.path) {
                    FetchStep::CallEndpoint
                } else {
                    FetchStep::GetResource
                },
                lookup_subject(subject),
            ),
        ),
    }
}

/// Starts to fetch a resource.
pub fn start_fetch(endpoints: &Vec<Endpoint>, subject: &str) -> (r: AtomicResult<
    (FetchStep, String),
>)
    ensures
        match r {
            Ok((step, key)) => fetch_start(
                crate::endpoints::endpoints_view(endpoints@),
                subject@,
            ) == Ok::<(FetchStep, Seq<char>), ErrorView>((step, key@)),
            Err(e) => fetch_start(crate::endpoints::endpoints_view(endpoints@), subject@) == Err::<
                (FetchStep, Seq<char>),
                ErrorView,
            >(e@),
        },
{
    let url = match parse_url(subject) {
        Ok(url) => url,
        Err(e) => {
            return Err(e);
        },
    };
    let clean = match without_query(subject) {
        Ok(clean) => clean,
        Err(e) => {
            return Err(e);
        },
    };
    let key = trim_slash(clean.as_str());
    let ghost all = crate::endpoints::endpoints_view(endpoints@);
    let found = is_endpoint(endpoints, url.path.as_str());
    proof {
        if found {
            let i = choose|i: int|
                0 <= i < endpoints@.len() && (#[trigger] endpoints@[i]).path@ == url.path@;
            assert(all[i].path == url.path@);
        } else if has_endpoint(all, url.path@) {
            let i = choose|i: int| 0 <= i < all.len() && (#[trigger] all[i]).path == url.path@;
            assert(endpoints@[i].path@ == url.path@);
        }
    }
    if found {
        Ok((FetchStep::CallEndpoint, key))
    } else {
        Ok((FetchStep::GetResource, key))
    }
}

/// The answer to whoever asked for an address: under that address, but for a resource that is
/// marked as incomplete.
pub open spec fn fetched_at(
    fetched: Fetched,
    response: ResponseView,
    subject: Seq<char>,
) -> ResponseView {
    if fetched is Incomplete {
        response
    } else {
        crate::endpoints::response_at(response, subject)
    }
}

/// Makes the answer to whoever asked for an address.
pub fn answer_fetch(fetched: Fetched, response: ResourceResponse, subject: &str) -> (r:
    ResourceResponse)
    ensures
        r@ == fetched_at(fetched, response@, subject@),
{
    match fetched {
        Fetched::Incomplete => response,
        _ => set_response_subject(response, subject),
    }
}

/// What fetching depends on.
pub struct FetchRules {
    /// For each extender, whether it works out resources.
    pub handlers: Vec<bool>,
    /// Whether to leave out what extenders work out.
    pub skip_dynamic: bool,
}

impl FetchRules {
    /// What is to be done from the extender with place `i` on.
    pub open spec fn from(self, i: int) -> FetchStep {
        if i < self.handlers@.len() {
            FetchStep::HasExtender(i as usize)
        } else {
            FetchStep::Return(Fetched::Plain)
        }
    }

    /// What is to be done after an action. An event that does not belong to the action changes
    /// nothing.
    pub open spec fn next(self, step: FetchStep, event: FetchEvent) -> FetchStep {
        match (step, event) {
            (FetchStep::CallEndpoint, FetchEvent::Worked(true)) => FetchStep::Return(
                Fetched::Endpoint,
            ),
            (FetchStep::GetResource, FetchEvent::Worked(true)) => FetchStep::CheckRead,
            (FetchStep::CheckRead, FetchEvent::Worked(true)) => self.from(0),
            (FetchStep::HasExtender(i), FetchEvent::Matches(matches)) => if !matches {
                self.from(i + 1)
            } else if self.skip_dynamic {
                FetchStep::SetIncomplete
            } else if i < self.handlers@.len() && self.handlers@[i as int] {
                FetchStep::CallExtender(i)
            } else {
                self.from(i + 1)
            },
            (FetchStep::SetIncomplete, FetchEvent::Worked(true)) => FetchStep::Return(
                Fetched::Incomplete,
            ),
            (FetchStep::CallExtender(_), FetchEvent::Worked(true)) => FetchStep::Return(
                Fetched::Extended,
            ),
            (FetchStep::Return(_), _) => step,
            (_, FetchEvent::Worked(false)) => FetchStep::Failed,
            _ => step,
        }
    }

    /// The extender of a step is one of them.
    pub open spec fn fits(self, step: FetchStep) -> bool {
        match step {
            FetchStep::HasExtender(i) => i < self.handlers@.len(),
            FetchStep::CallExtender(i) => i < self.handlers@.len(),
            _ => true,
        }
    }

    fn go_to(&self, i: usize) -> (r: FetchStep)
        ensures
            r == self.from(i as int),
            self.fits(r),
    {
        if i < self.handlers.len() {
            FetchStep::HasExtender(i)
        } else {
            FetchStep::Return(Fetched::Plain)
        }
    }

    /// What is to be done after an action to fetch a resource.
    pub fn get_resource_extended(&self, step: FetchStep, event: FetchEvent) -> (r: FetchStep)
        requires
            self.fits(step),
        ensures
            r == self.next(step, event),
            self.fits(r),
    {
        let n: usize = self.handlers.len();
        assert(n == self.handlers@.len());
        match (step, event) {
            (FetchStep::CallEndpoint, FetchEvent::Worked(true)) => FetchStep::Return(
                Fetched::Endpoint,
            ),
            (FetchStep::GetResource, FetchEvent::Worked(true)) => FetchStep::CheckRead,
            (FetchStep::CheckRead, FetchEvent::Worked(true)) => self.go_to(0),
            (FetchStep::HasExtender(i), FetchEvent::Matches(matches)) => if !matches {
                self.go_to(i + 1)
            } else if self.skip_dynamic {
                FetchStep::SetIncomplete
            } else if self.handlers[i] {
                FetchStep::CallExtender(i)
            } else {
                self.go_to(i + 1)
            },
            (FetchStep::SetIncomplete, FetchEvent::Worked(true)) => FetchStep::Return(
                Fetched::Incomplete,
            ),
            (FetchStep::CallExtender(_), FetchEvent::Worked(true)) => FetchStep::Return(
                Fetched::Extended,
            ),
            (FetchStep::Return(_), _) => step,
            (_, FetchEvent::Worked(false)) => FetchStep::Failed,
            _ => step,
        }
    }

    /// What is to be done after a number of actions.
    pub open spec fn after(self, start: FetchStep, events: Seq<FetchEvent>) -> FetchStep
        decreases events.len(),
    {
        if events.len() == 0 {
            start
        } else {
            self.next(self.after(start, events.drop_last()), events.last())
        }
    }

    /// Whether the database has handed the resource out, or is about to.
    pub open spec fn past_check(self, step: FetchStep) -> bool {
        match step {
            FetchStep::HasExtender(_) => true,
            FetchStep::SetIncomplete => true,
            FetchStep::CallExtender(_) => true,
            FetchStep::Return(Fetched::Endpoint) => false,
            FetchStep::Return(_) => true,
            _ => false,
        }
    }

    /// A resource from the database is returned, or shown to an extender, only after it has been
    /// found that whoever asks may read it.
    pub proof fn nothing_unreadable_is_returned(self, events: Seq<FetchEvent>)
        requires
            self.past_check(self.after(FetchStep::GetResource, events)),
        ensures
            exists|k: int|
                0 <= k < events.len() && #[trigger] self.after(
                    FetchStep::GetResource,
                    events.take(k),
                ) is CheckRead && events[k] == FetchEvent::Worked(true),
        decreases events.len(),
    {
        let start = FetchStep::GetResource;
        let before = events.drop_last();
        let last = events.len() - 1;
        assert(events.take(last) =~= before);
        if self.past_check(self.after(start, before)) {
            self.nothing_unreadable_is_returned(before);
            let k = choose|k: int|
                0 <= k < before.len() && #[trigger] self.after(start, before.take(k)) is CheckRead
                    && before[k] == FetchEvent::Worked(true);
            assert(before.take(k) =~= events.take(k));
            assert(self.after(start, events.take(k)) is CheckRead);
        } else {
            assert(self.after(start, events.take(last)) is CheckRead);
        }
    }

    /// Where the work of extenders is to be left out, none of them is called.
    pub proof fn skipping_calls_no_extender(self, start: FetchStep, events: Seq<FetchEvent>)
        requires
            self.skip_dynamic,
            start is CallEndpoint || start is GetResource,
        ensures
            !(self.after(start, events) is CallExtender),
            self.after(start, events) != FetchStep::Return(Fetched::Extended),
        decreases events.len(),
    {
        if events.len() > 0 {
            self.skipping_calls_no_extender(start, events.drop_last());
        }
    }

    /// Whether it has been found whether the extender with place `j` is for the resource, with this
    /// answer.
    pub open spec fn asked(self, events: Seq<FetchEvent>, j: int, answer: bool) -> bool {
        exists|k: int|
            0 <= k < events.len() && #[trigger] self.after(FetchStep::GetResource, events.take(k))
                == FetchStep::HasExtender(j as usize) && events[k] == FetchEvent::Matches(answer)
    }

    proof fn lemma_asked_stays(self, events: Seq<FetchEvent>, j: int, answer: bool)
        requires
            events.len() > 0,
            self.asked(events.drop_last(), j, answer),
        ensures
            self.asked(events, j, answer),
    {
        let start = FetchStep::GetResource;
        let before = events.drop_last();
        let k = choose|k: int|
            0 <= k < before.len() && #[trigger] self.after(start, before.take(k))
                == FetchStep::HasExtender(j as usize) && before[k] == FetchEvent::Matches(answer);
        assert(before.take(k) =~= events.take(k));
        assert(self.after(start, events.take(k)) == FetchStep::HasExtender(j as usize));
        assert(events[k] == before[k]);
    }

    proof fn lemma_asked_last(self, events: Seq<FetchEvent>)
        requires
            events.len() > 0,
        ensures
            self.after(FetchStep::GetResource, events.drop_last()) matches FetchStep::HasExtender(i)
                ==> (events.last() matches FetchEvent::Matches(answer) ==> self.asked(
                events,
                i as int,
                answer,
            )),
    {
        let last = events.len() - 1;
        assert(events.take(last) =~= events.drop_last());
        assert(self.after(FetchStep::GetResource, events.take(last)) == self.after(
            FetchStep::GetResource,
            events.drop_last(),
        ));
    }

    /// No extender is passed over that is for the resource and works resources out, nor any that is
    /// for the resource where the work of extenders is to be left out. The first such extender
    /// answers; where there is none, the resource is returned as it is.
    pub proof fn the_first_fitting_extender_answers(self, events: Seq<FetchEvent>, j: int)
        requires
            0 <= j < self.handlers@.len(),
            self.skip_dynamic || self.handlers@[j],
        ensures
            match self.after(FetchStep::GetResource, events) {
                FetchStep::HasExtender(i) => j < i ==> self.asked(events, j, false),
                FetchStep::CallExtender(i) => {
                    &&& i < self.handlers@.len() && self.handlers@[i as int]
                    &&& self.asked(events, i as int, true)
                    &&& j < i ==> self.asked(events, j, false)
                },
                FetchStep::Return(Fetched::Plain) => self.asked(events, j, false),
                _ => true,
            },
        decreases events.len(),
    {
        if events.len() > 0 {
            let start = FetchStep::GetResource;
            let before = events.drop_last();
            self.the_first_fitting_extender_answers(before, j);
            self.lemma_fits(before);
            self.lemma_asked_last(events);
            if self.asked(before, j, false) {
                self.lemma_asked_stays(events, j, false);
            }
            if let FetchStep::CallExtender(i) = self.after(start, before) {
                self.lemma_asked_stays(events, i as int, true);
            }
        }
    }

    proof fn lemma_fits(self, events: Seq<FetchEvent>)
        ensures
            self.fits(self.after(FetchStep::GetResource, events)),
        decreases events.len(),
    {
        let n: usize = self.handlers.len();
        if events.len() > 0 {
            self.lemma_fits(events.drop_last());
        }
    }

    /// A resource is marked as incomplete only where the work of extenders is to be left out, and
    /// one of them is for the resource.
    pub proof fn only_skipped_work_leaves_a_resource_incomplete(self, events: Seq<FetchEvent>)
        requires
            self.after(FetchStep::GetResource, events) is SetIncomplete || self.after(
                FetchStep::GetResource,
                events,
            ) == FetchStep::Return(Fetched::Incomplete),
        ensures
            self.skip_dynamic,
            exists|j: int| #[trigger] self.asked(events, j, true),
        decreases events.len(),
    {
        let start = FetchStep::GetResource;
        let before = events.drop_last();
        self.lemma_asked_last(events);
        match self.after(start, before) {
            FetchStep::SetIncomplete | FetchStep::Return(Fetched::Incomplete) => {
                self.only_skipped_work_leaves_a_resource_incomplete(before);
                let j = choose|j: int| #[trigger] self.asked(before, j, true);
                self.lemma_asked_stays(events, j, true);
            },
            FetchStep::HasExtender(i) => {
                assert(self.asked(events, i as int, true));
            },
            _ => {},
        }
    }

    /// Whether an event is what comes of a step that works.
    pub open spec fn went_well(self, step: FetchStep, event: FetchEvent) -> bool {
        if step is HasExtender {
            event is Matches
        } else {
            event == FetchEvent::Worked(true)
        }
    }

    proof fn lemma_fetch_left(self, events: Seq<FetchEvent>)
        requires
            forall|k: int|
                0 <= k < events.len() ==> self.went_well(
                    #[trigger] self.after(FetchStep::GetResource, events.take(k)),
                    events[k],
                ),
        ensures
            match self.after(FetchStep::GetResource, events) {
                FetchStep::GetResource => events.len() == 0,
                FetchStep::CheckRead => events.len() == 1,
                FetchStep::HasExtender(i) => events.len() <= 2 + i && i < self.handlers@.len(),
                FetchStep::SetIncomplete => events.len() <= 2 + self.handlers@.len(),
                FetchStep::CallExtender(_) => events.len() <= 2 + self.handlers@.len(),
                FetchStep::Return(fetched) => !(fetched is Endpoint),
                _ => false,
            },
        decreases events.len(),
    {
        let n: usize = self.handlers.len();
        if events.len() > 0 {
            let start = FetchStep::GetResource;
            let before = events.drop_last();
            let last = events.len() - 1;
            assert(events.take(last) =~= before);
            assert forall|k: int| 0 <= k < before.len() implies self.went_well(
                #[trigger] self.after(start, before.take(k)),
                before[k],
            ) by {
                assert(before.take(k) =~= events.take(k));
                assert(self.went_well(self.after(start, events.take(k)), events[k]));
            }
            self.lemma_fetch_left(before);
            assert(self.went_well(self.after(start, events.take(last)), events[last]));
        }
    }

    /// A resource is returned where every action works.
    pub proof fn resources_are_returned_where_everything_works(self, events: Seq<FetchEvent>)
        requires
            forall|k: int|
                0 <= k < events.len() ==> self.went_well(
                    #[trigger] self.after(FetchStep::GetResource, events.take(k)),
                    events[k],
                ),
            events.len() >= 3 + self.handlers@.len(),
        ensures
            self.after(FetchStep::GetResource, events) is Return,
    {
        self.lemma_fetch_left(events);
    }

    /// An endpoint that answers settles the matter. Whatever fails, nothing is returned after it;
    /// and what is returned or has failed stays so.
    pub proof fn failures_stop_a_fetch(self, step: FetchStep, event: FetchEvent)
        ensures
            self.next(FetchStep::CallEndpoint, FetchEvent::Worked(true)) == FetchStep::Return(
                Fetched::Endpoint,
            ),
            !(step is Return) ==> self.next(step, FetchEvent::Worked(false)) is Failed,
            step is Return || step is Failed ==> self.next(step, event) == step,
            self.next(step, event) is Failed ==> step is Failed || event == FetchEvent::Worked(
                false,
            ),
            self.next(step, event) is CallEndpoint ==> step is CallEndpoint,
    {
    }
}

/// An address is answered by an endpoint where one has its path, and only there. A resource is looked
/// up without the query of the address, and without one slash at the end.
pub proof fn endpoints_go_before_the_database(
    endpoints: Seq<EndpointView>,
    subject: Seq<char>,
    i: int,
)
    ensures
        match (crate::address::url_parts(subject), fetch_start(endpoints, subject)) {
            (Ok(url), Ok((step, key))) => {
                &&& 0 <= i < endpoints.len() && endpoints[i].path == url.path
                    ==> step is CallEndpoint
                &&& step is CallEndpoint ==> exists|j: int|
                    0 <= j < endpoints.len() && (#[trigger] endpoints[j]).path == url.path
                &&& step is CallEndpoint || step is GetResource
                &&& ({
                    let address = crate::address::url_without_query(subject);
                    if address.len() > 0 && address.last() == '/' {
                        address == key.push('/')
                    } else {
                        address == key
                    }
                })
            },
            (Err(_), Err(_)) => true,
            _ => false,
        },
{
    let address = crate::address::url_without_query(subject);
    if address.len() > 0 {
        assert(address =~= address.drop_last().push(address.last()));
    }
}

/// Whoever asks gets what was found, under the address that was asked for; a resource that is
/// incomplete keeps its own address.
pub proof fn answers_are_under_the_address_that_was_asked_for(
    fetched: Fetched,
    response: ResponseView,
    subject: Seq<char>,
)
    ensures
        fetched is Incomplete ==> fetched_at(fetched, response, subject) == response,
        !(fetched is Incomplete) ==> match (response, fetched_at(fetched, response, subject)) {
            (ResponseView::Resource(from), ResponseView::Resource(to)) => to.subject == subject
                && to.propvals == from.propvals,
            (
                ResponseView::ResourceWithReferenced(from, with),
                ResponseView::ResourceWithReferenced(to, still),
            ) => to.subject == subject && to.propvals == from.propvals && with == still,
            _ => false,
        },
{
}

} // verus!
