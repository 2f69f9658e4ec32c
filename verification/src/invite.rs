//! Invites: whoever accepts one gets rights on the resource that it is for.
use crate::address::{find_param, without_query};
use crate::endpoints::{Assigned, AssignedView, Assignments, AssignmentsView};
use crate::errors::{AtomicError, AtomicResult, ErrorView};
use crate::parse::check_valid_url;
use crate::text::{cat2, cat4};
use crate::urls;
use vstd::prelude::*;

verus! {

/// Who accepts an invite.
pub enum InviteAgent {
    /// Nobody: the invite is only looked at.
    Nobody,
    /// The agent with this address.
    Known(String),
    /// The agent with this public key, who may be new.
    New(String),
}

/// Who accepts an invite, from the query parameters.
pub open spec fn invite_agent(pairs: Seq<(Seq<char>, Seq<char>)>, r: AtomicResult<InviteAgent>) ->
    bool {
    let key = crate::address::last_param(pairs, "public-key"@, urls::INVITE_PUBKEY@);
    let agent = crate::address::last_param(pairs, "agent"@, urls::AGENT@);
    match (key, agent) {
        (None, None) => r matches Ok(InviteAgent::Nobody),
        (None, Some(url)) => r matches Ok(InviteAgent::Known(a)) && a@ == url,
        (Some(k), None) => r matches Ok(InviteAgent::New(a)) && a@ == k,
        (Some(_), Some(_)) => r matches Err(e) && e@ == crate::errors::other(
            "Either publicKey or agent can be set - not both at the same time."@,
        ),
    }
}

/// Finds out who accepts an invite.
pub fn read_agent(pairs: &Vec<(String, String)>) -> (r: AtomicResult<InviteAgent>)
    ensures
        invite_agent(crate::address::pairs_view(pairs@), r),
{
    let key = find_param(pairs, "public-key", urls::INVITE_PUBKEY);
    let agent = find_param(pairs, "agent", urls::AGENT);
    match (key, agent) {
        (None, None) => Ok(InviteAgent::Nobody),
        (None, Some(url)) => Ok(InviteAgent::Known(url)),
        (Some(key), None) => Ok(InviteAgent::New(key)),
        (Some(_), Some(_)) => Err(
            AtomicError::other_error(
                "Either publicKey or agent can be set - not both at the same time.".to_owned(),
            ),
        ),
    }
}

/// What is to be done next for an agent who may be new.
#[derive(Clone, Copy, Debug, PartialEq, Eq, Structural)]
pub enum AgentStep {
    /// Make the agent from the public key.
    FromKey,
    /// See whether the agent is known.
    LookUp,
    /// Save the agent.
    Save,
    /// Give the agent the right to write to itself.
    GrantSelf,
    /// Nothing: the agent can accept the invite.
    Ready,
    /// Nothing: the last action failed.
    Failed,
}

/// What is to be done after an action for an agent who may be new.
pub open spec fn agent_next(step: AgentStep, worked: bool) -> AgentStep {
    match (step, worked) {
        (AgentStep::FromKey, true) => AgentStep::LookUp,
        (AgentStep::LookUp, true) => AgentStep::GrantSelf,
        (AgentStep::LookUp, false) => AgentStep::Save,
        (AgentStep::Save, true) => AgentStep::GrantSelf,
        (AgentStep::GrantSelf, true) => AgentStep::Ready,
        (AgentStep::Ready, _) => AgentStep::Ready,
        _ => AgentStep::Failed,
    }
}

/// What is to be done after an action for an agent who may be new.
pub fn advance_agent(step: AgentStep, worked: bool) -> (r: AgentStep)
    ensures
        r == agent_next(step, worked),
{
    match (step, worked) {
        (AgentStep::FromKey, true) => AgentStep::LookUp,
        (AgentStep::LookUp, true) => AgentStep::GrantSelf,
        (AgentStep::LookUp, false) => AgentStep::Save,
        (AgentStep::Save, true) => AgentStep::GrantSelf,
        (AgentStep::GrantSelf, true) => AgentStep::Ready,
        (AgentStep::Ready, _) => AgentStep::Ready,
        _ => AgentStep::Failed,
    }
}

/// A value of an invite that may be missing, or be of the wrong datatype.
#[derive(Clone, Copy, Debug, PartialEq, Eq, Structural)]
pub enum Term<T> {
    Missing,
    Wrong,
    Value(T),
}

/// The terms of an invite.
#[derive(Clone, Debug, PartialEq, Eq)]
pub struct InviteTerms {
    /// The address under which the invite is stored.
    pub invite: String,
    /// Whether the invite gives the right to write.
    pub write: Term<bool>,
    /// Whether the invite says what it is for.
    pub target: bool,
    /// How often it can still be accepted.
    pub usages_left: Term<i64>,
    /// Whether the address of the invite can be taken apart.
    pub address: bool,
    pub expires_at: Term<i64>,
    /// The time at which it is accepted.
    pub now: i64,
}

/// Why an invite was not accepted.
#[derive(Clone, Copy, Debug, PartialEq, Eq, Structural)]
pub enum InviteFailure {
    /// It does not say what it is for.
    NoTarget,
    /// What it is for is not there.
    TargetMissing,
    NoUsagesLeft,
    /// The changed invite could not be saved.
    NotSaved,
    Expired,
    /// Whoever made it may not write to what it is for.
    CreatorNotAllowed,
    /// The last action failed, or a value is of the wrong datatype.
    Action,
}

/// What is to be done next to accept an invite.
#[derive(Clone, Debug, PartialEq, Eq)]
pub enum InviteStep {
    /// See whether what it is for is there.
    CheckTarget,
    /// Save that it can be accepted this often from now on.
    SetUsages(i64),
    /// Save the invite.
    SaveInvite,
    /// Find out who made the invite with this address: who signed its first commit.
    FindCreator(String),
    /// See whether whoever made it may write to what it is for.
    CheckCreator,
    /// Give the right to write, or the right to read where the invite gives no more.
    Grant(bool),
    /// Give the right to read, too.
    GrantRead,
    /// Make the answer.
    Redirect,
    /// Nothing: it is accepted.
    Done,
    /// Nothing: it is not accepted.
    Failed(InviteFailure),
}

impl InviteTerms {
    /// Whether the invite gives the right to write.
    pub open spec fn writes(self) -> bool {
        self.write == Term::Value(true)
    }

    /// What is to be done first.
    pub open spec fn first(self) -> InviteStep {
        if self.write == Term::<bool>::Wrong {
            InviteStep::Failed(InviteFailure::Action)
        } else if !self.target {
            InviteStep::Failed(InviteFailure::NoTarget)
        } else {
            InviteStep::CheckTarget
        }
    }

    /// What is to be done when it is settled how often the invite can be accepted.
    pub open spec fn after_usages(self) -> InviteStep {
        match self.expires_at {
            Term::Missing => InviteStep::FindCreator(self.invite),
            Term::Wrong => InviteStep::Failed(InviteFailure::Action),
            Term::Value(expires) => if expires < self.now {
                InviteStep::Failed(InviteFailure::Expired)
            } else {
                InviteStep::FindCreator(self.invite)
            },
        }
    }

    /// What is to be done when it is known that what the invite is for is there.
    pub open spec fn after_target(self) -> InviteStep {
        match self.usages_left {
            Term::Missing => self.after_usages(),
            Term::Wrong => InviteStep::Failed(InviteFailure::Action),
            Term::Value(n) => if n <= 0 {
                InviteStep::Failed(InviteFailure::NoUsagesLeft)
            } else if !self.address {
                InviteStep::Failed(InviteFailure::Action)
            } else {
                InviteStep::SetUsages((n - 1) as i64)
            },
        }
    }

    /// What is to be done after an action.
    pub open spec fn next(self, step: InviteStep, worked: bool) -> InviteStep {
        match (step, worked) {
            (InviteStep::CheckTarget, true) => self.after_target(),
            (InviteStep::CheckTarget, false) => InviteStep::Failed(InviteFailure::TargetMissing),
            (InviteStep::SetUsages(_), true) => InviteStep::SaveInvite,
            (InviteStep::SaveInvite, true) => self.after_usages(),
            (InviteStep::SaveInvite, false) => InviteStep::Failed(InviteFailure::NotSaved),
            (InviteStep::FindCreator(_), true) => InviteStep::CheckCreator,
            (InviteStep::CheckCreator, true) => InviteStep::Grant(self.writes()),
            (InviteStep::CheckCreator, false) => InviteStep::Failed(
                InviteFailure::CreatorNotAllowed,
            ),
            (InviteStep::Grant(write), true) => if write {
                InviteStep::GrantRead
            } else {
                InviteStep::Redirect
            },
            (InviteStep::GrantRead, true) => InviteStep::Redirect,
            (InviteStep::Redirect, true) => InviteStep::Done,
            (InviteStep::Done, _) => step,
            (InviteStep::Failed(_), _) => step,
            (_, false) => InviteStep::Failed(InviteFailure::Action),
        }
    }

    /// What is to be done first to accept the invite.
    pub fn start(&self) -> (r: InviteStep)
        ensures
            r == self.first(),
    {
        match self.write {
            Term::Wrong => InviteStep::Failed(InviteFailure::Action),
            _ => if !self.target {
                InviteStep::Failed(InviteFailure::NoTarget)
            } else {
                InviteStep::CheckTarget
            },
        }
    }

    fn check_expiry(&self) -> (r: InviteStep)
        ensures
            r == self.after_usages(),
    {
        match self.expires_at {
            Term::Missing => InviteStep::FindCreator(self.invite.clone()),
            Term::Wrong => InviteStep::Failed(InviteFailure::Action),
            Term::Value(expires) => if expires < self.now {
                InviteStep::Failed(InviteFailure::Expired)
            } else {
                InviteStep::FindCreator(self.invite.clone())
            },
        }
    }

    fn check_usages(&self) -> (r: InviteStep)
        ensures
            r == self.after_target(),
    {
        match self.usages_left {
            Term::Missing => self.check_expiry(),
            Term::Wrong => InviteStep::Failed(InviteFailure::Action),
            Term::Value(n) => if n <= 0 {
                InviteStep::Failed(InviteFailure::NoUsagesLeft)
            } else if !self.address {
                InviteStep::Failed(InviteFailure::Action)
            } else {
                InviteStep::SetUsages(n - 1)
            },
        }
    }

    /// What is to be done after an action to accept the invite.
    pub fn construct_invite_redirect(&self, step: InviteStep, worked: bool) -> (r: InviteStep)
        ensures
            r == self.next(step, worked),
    {
        match step {
            InviteStep::Done => InviteStep::Done,
            InviteStep::Failed(failure) => InviteStep::Failed(failure),
            InviteStep::CheckTarget => if worked {
                self.check_usages()
            } else {
                InviteStep::Failed(InviteFailure::TargetMissing)
            },
            InviteStep::SaveInvite => if worked {
                self.check_expiry()
            } else {
                InviteStep::Failed(InviteFailure::NotSaved)
            },
            InviteStep::CheckCreator => if worked {
                InviteStep::Grant(
                    match self.write {
                        Term::Value(write) => write,
                        _ => false,
                    },
                )
            } else {
                InviteStep::Failed(InviteFailure::CreatorNotAllowed)
            },
            _ if !worked => InviteStep::Failed(InviteFailure::Action),
            InviteStep::SetUsages(_) => InviteStep::SaveInvite,
            InviteStep::FindCreator(_) => InviteStep::CheckCreator,
            InviteStep::Grant(true) => InviteStep::GrantRead,
            InviteStep::Grant(false) => InviteStep::Redirect,
            InviteStep::GrantRead => InviteStep::Redirect,
            InviteStep::Redirect => InviteStep::Done,
        }
    }

    /// What is to be done after a number of actions.
    pub open spec fn after(self, events: Seq<bool>) -> InviteStep
        decreases events.len(),
    {
        if events.len() == 0 {
            self.first()
        } else {
            self.next(self.after(events.drop_last()), events.last())
        }
    }

    /// Whether rights are being given or have been given.
    pub open spec fn granting(self, step: InviteStep) -> bool {
        match step {
            InviteStep::Grant(_) => true,
            InviteStep::GrantRead => true,
            InviteStep::Redirect => true,
            InviteStep::Done => true,
            _ => false,
        }
    }

    /// Whether this action has been done and worked.
    pub open spec fn did(self, events: Seq<bool>, step: InviteStep) -> bool {
        exists|k: int|
            0 <= k < events.len() && #[trigger] self.after(events.take(k)) == step && events[k]
    }

    proof fn lemma_did_stays(self, events: Seq<bool>, step: InviteStep)
        requires
            events.len() > 0,
            self.did(events.drop_last(), step),
        ensures
            self.did(events, step),
    {
        let before = events.drop_last();
        let k = choose|k: int|
            0 <= k < before.len() && #[trigger] self.after(before.take(k)) == step && before[k];
        assert(before.take(k) =~= events.take(k));
        assert(self.after(events.take(k)) == step);
        assert(events[k]);
    }

    proof fn lemma_did_last(self, events: Seq<bool>)
        requires
            events.len() > 0,
            events.last(),
        ensures
            self.did(events, self.after(events.drop_last())),
    {
        let last = events.len() - 1;
        assert(events.take(last) =~= events.drop_last());
        assert(self.after(events.take(last)) == self.after(events.drop_last()));
        assert(events[last]);
    }

    /// Whether the actions up to the search for whoever made the invite have been done.
    pub open spec fn settled(self, events: Seq<bool>) -> bool {
        &&& self.did(events, InviteStep::CheckTarget)
        &&& self.usages_left matches Term::Value(n) ==> n > 0 && self.did(
            events,
            InviteStep::SetUsages((n - 1) as i64),
        ) && self.did(events, InviteStep::SaveInvite)
        &&& self.expires_at matches Term::Value(expires) ==> self.now <= expires
    }

    proof fn lemma_settled_stays(self, events: Seq<bool>)
        requires
            events.len() > 0,
            self.settled(events.drop_last()),
        ensures
            self.settled(events),
    {
        self.lemma_did_stays(events, InviteStep::CheckTarget);
        if let Term::Value(n) = self.usages_left {
            self.lemma_did_stays(events, InviteStep::SetUsages((n - 1) as i64));
            self.lemma_did_stays(events, InviteStep::SaveInvite);
        }
    }

    proof fn lemma_progress(self, events: Seq<bool>)
        ensures
            match self.after(events) {
                InviteStep::SetUsages(m) => self.did(events, InviteStep::CheckTarget) && (
                self.usages_left matches Term::Value(n) && n > 0 && m == (n - 1) as i64),
                InviteStep::SaveInvite => self.did(events, InviteStep::CheckTarget) && (
                self.usages_left matches Term::Value(n) && n > 0 && self.did(
                    events,
                    InviteStep::SetUsages((n - 1) as i64),
                )),
                InviteStep::FindCreator(invite) => self.settled(events) && invite == self.invite,
                InviteStep::CheckCreator => self.settled(events) && self.did(
                    events,
                    InviteStep::FindCreator(self.invite),
                ),
                step => self.granting(step) ==> self.settled(events) && self.did(
                    events,
                    InviteStep::FindCreator(self.invite),
                ) && self.did(events, InviteStep::CheckCreator),
            },
        decreases events.len(),
    {
        if events.len() > 0 {
            let before = events.drop_last();
            let earlier = self.after(before);
            self.lemma_progress(before);
            if events.last() {
                self.lemma_did_last(events);
            }
            match earlier {
                InviteStep::CheckTarget => {},
                InviteStep::SetUsages(_) => {
                    self.lemma_did_stays(events, InviteStep::CheckTarget);
                },
                InviteStep::SaveInvite => {
                    self.lemma_did_stays(events, InviteStep::CheckTarget);
                    self.lemma_did_stays(
                        events,
                        InviteStep::SetUsages((self.usages_left->Value_0 - 1) as i64),
                    );
                },
                InviteStep::FindCreator(_) => {
                    self.lemma_settled_stays(events);
                },
                InviteStep::CheckCreator => {
                    self.lemma_settled_stays(events);
                    self.lemma_did_stays(events, InviteStep::FindCreator(self.invite));
                },
                InviteStep::Failed(_) => {},
                _ => {
                    self.lemma_settled_stays(events);
                    self.lemma_did_stays(events, InviteStep::FindCreator(self.invite));
                    self.lemma_did_stays(events, InviteStep::CheckCreator);
                },
            }
        }
    }

    /// Rights are given only where what the invite is for is there, the invite has usages left and
    /// one of them has been taken off, it has not expired, and whoever made it has been found and
    /// may write to what it is for.
    pub proof fn rights_are_given_only_on_the_terms(self, events: Seq<bool>)
        requires
            self.granting(self.after(events)),
        ensures
            self.settled(events),
            self.did(events, InviteStep::FindCreator(self.invite)),
            self.did(events, InviteStep::CheckCreator),
    {
        self.lemma_progress(events);
    }

    proof fn lemma_rights_given(self, events: Seq<bool>)
        ensures
            match self.after(events) {
                InviteStep::Grant(write) => write == self.writes(),
                InviteStep::GrantRead => self.writes() && self.did(events, InviteStep::Grant(true)),
                InviteStep::Redirect => self.gave_rights(events),
                InviteStep::Done => self.gave_rights(events) && self.did(
                    events,
                    InviteStep::Redirect,
                ),
                _ => true,
            },
        decreases events.len(),
    {
        if events.len() > 0 {
            let before = events.drop_last();
            self.lemma_rights_given(before);
            if events.last() {
                self.lemma_did_last(events);
            }
            match self.after(before) {
                InviteStep::GrantRead => {
                    self.lemma_did_stays(events, InviteStep::Grant(true));
                },
                InviteStep::Redirect | InviteStep::Done => {
                    self.lemma_did_stays(events, InviteStep::Grant(self.writes()));
                    if self.writes() {
                        self.lemma_did_stays(events, InviteStep::GrantRead);
                    }
                    if self.after(before) is Done {
                        self.lemma_did_stays(events, InviteStep::Redirect);
                    }
                },
                _ => {},
            }
        }
    }

    /// Whether the rights that the invite gives have been given.
    pub open spec fn gave_rights(self, events: Seq<bool>) -> bool {
        &&& self.did(events, InviteStep::Grant(self.writes()))
        &&& self.writes() ==> self.did(events, InviteStep::GrantRead)
    }

    /// An invite that is accepted has given the rights that it promises: the right to read, and the
    /// right to write where it gives that; and it has been answered.
    pub proof fn accepted_invites_give_their_rights(self, events: Seq<bool>)
        requires
            self.after(events) is Done,
        ensures
            self.gave_rights(events),
            self.did(events, InviteStep::Redirect),
    {
        self.lemma_rights_given(events);
    }

    /// The right to write is given only where the invite gives it.
    pub proof fn write_is_given_only_where_promised(self, events: Seq<bool>)
        ensures
            self.after(events) == InviteStep::Grant(true) ==> self.write == Term::Value(true),
            self.after(events) is GrantRead ==> self.write == Term::Value(true),
            self.after(events) == InviteStep::Grant(false) ==> self.write != Term::Value(true),
        decreases events.len(),
    {
        if events.len() > 0 {
            self.write_is_given_only_where_promised(events.drop_last());
        }
    }

    /// Whether nothing in the terms stands in the way of whoever accepts the invite: it says what it
    /// is for, it can be accepted at least once more, it has not expired, and its values are of the
    /// right datatypes.
    pub open spec fn can_be_accepted(self) -> bool {
        &&& self.write != Term::<bool>::Wrong
        &&& self.target
        &&& match self.usages_left {
            Term::Missing => true,
            Term::Wrong => false,
            Term::Value(n) => n >= 1 && self.address,
        }
        &&& match self.expires_at {
            Term::Missing => true,
            Term::Wrong => false,
            Term::Value(expires) => self.now <= expires,
        }
    }

    proof fn lemma_invite_left(self, events: Seq<bool>)
        requires
            forall|k: int| 0 <= k < events.len() ==> #[trigger] events[k],
        ensures
            match self.after(events) {
                InviteStep::CheckTarget => events.len() == 0,
                InviteStep::SetUsages(_) => events.len() == 1,
                InviteStep::SaveInvite => events.len() == 2,
                InviteStep::FindCreator(_) => events.len() <= 3,
                InviteStep::CheckCreator => events.len() <= 4,
                InviteStep::Grant(_) => events.len() <= 5,
                InviteStep::GrantRead => events.len() <= 6,
                InviteStep::Redirect => events.len() <= 7,
                InviteStep::Done => self.can_be_accepted(),
                InviteStep::Failed(_) => !self.can_be_accepted(),
            },
        decreases events.len(),
    {
        if events.len() > 0 {
            let before = events.drop_last();
            assert forall|k: int| 0 <= k < before.len() implies #[trigger] before[k] by {
                assert(events[k]);
            }
            self.lemma_invite_left(before);
            self.lemma_progress(before);
            self.lemma_terms(before);
            assert(events[events.len() - 1]);
        }
    }

    proof fn lemma_terms(self, events: Seq<bool>)
        ensures
            match self.after(events) {
                InviteStep::CheckTarget => self.target && self.write != Term::<bool>::Wrong,
                InviteStep::SetUsages(_) | InviteStep::SaveInvite => self.target && self.write
                    != Term::<bool>::Wrong && self.address,
                InviteStep::Failed(_) => true,
                _ => self.can_be_accepted(),
            },
        decreases events.len(),
    {
        if events.len() > 0 {
            self.lemma_terms(events.drop_last());
            self.lemma_progress(events.drop_last());
        }
    }

    /// An invite whose terms allow it is accepted where everything works; an invite is accepted only
    /// where its terms allow it.
    pub proof fn good_invites_are_accepted(self, events: Seq<bool>)
        ensures
            self.after(events) is Done ==> self.can_be_accepted(),
            events.len() >= 8 && (forall|k: int| 0 <= k < events.len() ==> #[trigger] events[k])
                && self.can_be_accepted() ==> self.after(events) is Done,
    {
        self.lemma_terms(events);
        if forall|k: int| 0 <= k < events.len() ==> #[trigger] events[k] {
            self.lemma_invite_left(events);
        }
    }

    /// Accepting an invite takes one usage off, no more and no less.
    pub proof fn accepting_takes_one_usage(self, events: Seq<bool>)
        ensures
            self.after(events) matches InviteStep::SetUsages(left) ==> self.usages_left
                == Term::<i64>::Value((left + 1) as i64) && left >= 0,
    {
        self.lemma_progress(events);
    }

    /// An invite is refused for the reason that it has: it is for nothing, what it is for is not
    /// there, it has no usages left, it cannot be saved, it has expired, or whoever made it may not
    /// write to what it is for.
    pub proof fn invites_are_refused_for_a_reason(self, events: Seq<bool>, worked: bool)
        ensures
            match self.after(events.push(worked)) {
                InviteStep::Failed(failure) => self.after(events) is Failed || match failure {
                    InviteFailure::NoTarget => false,
                    InviteFailure::TargetMissing => self.after(events) is CheckTarget && !worked,
                    InviteFailure::NoUsagesLeft => self.after(events) is CheckTarget && worked && (
                    self.usages_left matches Term::Value(n) && n < 1),
                    InviteFailure::NotSaved => self.after(events) is SaveInvite && !worked,
                    InviteFailure::Expired => worked && (self.expires_at matches Term::Value(
                        expires,
                    ) && expires < self.now),
                    InviteFailure::CreatorNotAllowed => self.after(events) is CheckCreator
                        && !worked,
                    InviteFailure::Action => true,
                },
                _ => worked || self.after(events) is Done,
            },
            !self.target && self.write != Term::<bool>::Wrong ==> self.after(Seq::empty())
                == InviteStep::Failed(InviteFailure::NoTarget),
            self.after(events) is Failed || self.after(events) is Done ==> self.after(
                events.push(worked),
            ) == self.after(events),
            self.after(events) is CheckTarget && !worked ==> self.after(events.push(worked))
                == InviteStep::Failed(InviteFailure::TargetMissing),
            self.after(events) is SaveInvite && !worked ==> self.after(events.push(worked))
                == InviteStep::Failed(InviteFailure::NotSaved),
            self.after(events) is CheckCreator && !worked ==> self.after(events.push(worked))
                == InviteStep::Failed(InviteFailure::CreatorNotAllowed),
            self.after(events) is CheckTarget && worked && (self.usages_left matches Term::Value(n)
                && n < 1) ==> self.after(events.push(worked)) == InviteStep::Failed(
                InviteFailure::NoUsagesLeft,
            ),
            self.after(events) is SaveInvite && worked && (self.expires_at matches Term::Value(
                expires,
            ) && expires < self.now) ==> self.after(events.push(worked)) == InviteStep::Failed(
                InviteFailure::Expired,
            ),
    {
        assert(events.push(worked).drop_last() =~= events);
    }
}

/// Whoever accepts an invite is the one that the last parameter for an agent names, or whoever has the
/// public key that the last parameter for one names. There cannot be both.
pub proof fn the_one_who_is_named_accepts(
    pairs: Seq<(Seq<char>, Seq<char>)>,
    r: AtomicResult<InviteAgent>,
    i: int,
    j: int,
)
    requires
        invite_agent(pairs, r),
        -1 <= i < pairs.len(),
        i >= 0 ==> pairs[i].0 == "agent"@ || pairs[i].0 == urls::AGENT@,
        forall|k: int|
            i < k < pairs.len() ==> (#[trigger] pairs[k]).0 != "agent"@ && pairs[k].0
                != urls::AGENT@,
        -1 <= j < pairs.len(),
        j >= 0 ==> pairs[j].0 == "public-key"@ || pairs[j].0 == urls::INVITE_PUBKEY@,
        forall|k: int|
            j < k < pairs.len() ==> (#[trigger] pairs[k]).0 != "public-key"@ && pairs[k].0
                != urls::INVITE_PUBKEY@,
    ensures
        i < 0 && j < 0 ==> r matches Ok(InviteAgent::Nobody),
        i >= 0 && j < 0 ==> (r matches Ok(InviteAgent::Known(agent)) && agent@ == pairs[i].1),
        i < 0 && j >= 0 ==> (r matches Ok(InviteAgent::New(key)) && key@ == pairs[j].1),
        i >= 0 && j >= 0 ==> r is Err,
{
    crate::address::the_last_parameter_counts(pairs, "agent"@, urls::AGENT@, i);
    crate::address::the_last_parameter_counts(pairs, "public-key"@, urls::INVITE_PUBKEY@, j);
}

/// An agent who is not known is saved. An agent who is known or has been saved gets the right to
/// write to itself, and can accept the invite where that works. Nothing else makes an agent ready.
pub proof fn new_agents_are_saved(known: bool, saved: bool)
    ensures
        ({
            let looked = agent_next(AgentStep::FromKey, true);
            let found = agent_next(looked, known);
            let kept = if known {
                found
            } else {
                agent_next(found, saved)
            };
            &&& looked is LookUp
            &&& !known ==> found is Save
            &&& known || saved ==> kept is GrantSelf && agent_next(kept, true) is Ready
            &&& !known && !saved ==> kept is Failed
            &&& agent_next(AgentStep::GrantSelf, false) is Failed
            &&& agent_next(AgentStep::FromKey, false) is Failed
            &&& agent_next(AgentStep::Ready, saved) is Ready
            &&& agent_next(AgentStep::Failed, saved) is Failed
        }),
{
}

/// Whatever an invite is refused for, whoever asked is told, and in the words of the last action
/// where it is that action that failed.
pub proof fn refusals_say_why(
    failure: InviteFailure,
    invite: Seq<char>,
    target: Seq<char>,
    cause: ErrorView,
)
    ensures
        failure is Action ==> invite_error(failure, invite, target, cause) == cause,
        failure is NoTarget ==> crate::text::includes(
            invite_error(failure, invite, target, cause).message,
            invite,
        ),
        failure is TargetMissing ==> target.is_suffix_of(
            invite_error(failure, invite, target, cause).message,
        ),
        failure is NoTarget || failure is NotSaved || failure is CreatorNotAllowed
            ==> cause.message.is_suffix_of(invite_error(failure, invite, target, cause).message),
{
    let message = invite_error(failure, invite, target, cause).message;
    if failure is NoTarget {
        let n = "Invite "@.len() as int;
        assert(message.subrange(n, n + invite.len()) =~= invite);
        assert(crate::text::occurs(message, invite, n));
    }
    if failure is TargetMissing {
        assert(message.subrange(message.len() - target.len(), message.len() as int) =~= target);
    }
    if failure is NoTarget || failure is NotSaved || failure is CreatorNotAllowed {
        assert(message.subrange(message.len() - cause.message.len(), message.len() as int)
            =~= cause.message);
    }
}

/// What is said where an invite was not accepted. `cause` is the error of the last action.
pub open spec fn invite_error(
    failure: InviteFailure,
    invite: Seq<char>,
    target: Seq<char>,
    cause: ErrorView,
) -> ErrorView {
    match failure {
        InviteFailure::NoTarget => crate::errors::other(
            "Invite "@ + invite + " does not have a target. "@ + cause.message,
        ),
        InviteFailure::TargetMissing => crate::errors::other(
            "Target for invite does not exist: "@ + target,
        ),
        InviteFailure::NoUsagesLeft => crate::errors::other("No usages left for this invite"@),
        InviteFailure::NotSaved => crate::errors::other(
            "Unable to save updated Invite. "@ + cause.message,
        ),
        InviteFailure::Expired => crate::errors::other("Invite is no longer valid"@),
        InviteFailure::CreatorNotAllowed => crate::errors::other(
            "Invite creator is not allowed to write the target. "@ + cause.message,
        ),
        InviteFailure::Action => cause,
    }
}

/// What is said where an invite was not accepted.
pub fn explain_invite(failure: InviteFailure, invite: &str, target: &str, cause: AtomicError) -> (r:
    AtomicError)
    ensures
        r@ == invite_error(failure, invite@, target@, cause@),
{
    match failure {
        InviteFailure::NoTarget => AtomicError::other_error(
            cat4("Invite ", invite, " does not have a target. ", cause.message.as_str()),
        ),
        InviteFailure::TargetMissing => AtomicError::other_error(
            cat2("Target for invite does not exist: ", target),
        ),
        InviteFailure::NoUsagesLeft => AtomicError::other_error(
            "No usages left for this invite".to_owned(),
        ),
        InviteFailure::NotSaved => AtomicError::in_context(
            "Unable to save updated Invite. ",
            &cause,
        ),
        InviteFailure::Expired => AtomicError::other_error("Invite is no longer valid".to_owned()),
        InviteFailure::CreatorNotAllowed => AtomicError::in_context(
            "Invite creator is not allowed to write the target. ",
            &cause,
        ),
        InviteFailure::Action => cause,
    }
}

/// Under which address a changed invite is saved: the one that was asked for, without the query.
pub fn invite_address(requested_subject: &str) -> (r: AtomicResult<String>)
    ensures
        match r {
            Ok(url) => crate::address::url_parts(requested_subject@) is Ok && url@
                == crate::address::url_without_query(requested_subject@),
            Err(e) => crate::address::url_parts(requested_subject@) is Err && e@
                == crate::errors::other(crate::address::url_parts(requested_subject@)->Err_0),
        },
{
    without_query(requested_subject)
}

/// The address under which the invite that was asked for is stored: without the query, where there
/// can be one.
pub fn stored_address(requested_subject: &str) -> (r: String)
    ensures
        r@ == (if crate::address::url_parts(requested_subject@) is Ok {
            crate::address::url_without_query(requested_subject@)
        } else {
            requested_subject@
        }),
{
    match without_query(requested_subject) {
        Ok(url) => url,
        Err(_) => requested_subject.to_owned(),
    }
}

/// The answer to whoever accepts an invite: where to go, and as whom. It has the address that was
/// asked for.
pub fn redirect(requested_subject: &str, target: &str, agent: &str) -> (r: Assignments)
    ensures
        r@ == (AssignmentsView {
            subject: requested_subject@,
            values: seq![
                (urls::DESTINATION@, AssignedView::Url(target@)),
                (urls::REDIRECT_AGENT@, AssignedView::Url(agent@)),
                (urls::IS_A@, AssignedView::Subjects(seq![urls::REDIRECT@])),
            ],
        }),
{
    let mut is_a: Vec<String> = Vec::new();
    is_a.push(urls::REDIRECT.to_owned());
    assert(crate::text::list(is_a@) =~= seq![urls::REDIRECT@]);
    let mut values: Vec<(&'static str, Assigned)> = Vec::new();
    values.push((urls::DESTINATION, Assigned::Url(target.to_owned())));
    values.push((urls::REDIRECT_AGENT, Assigned::Url(agent.to_owned())));
    values.push((urls::IS_A, Assigned::Subjects(is_a)));
    let r = Assignments { subject: requested_subject.to_owned(), values };
    assert(r@.values =~= seq![
        (urls::DESTINATION@, AssignedView::Url(target@)),
        (urls::REDIRECT_AGENT@, AssignedView::Url(agent@)),
        (urls::IS_A@, AssignedView::Subjects(seq![urls::REDIRECT@])),
    ]);
    r
}

/// The property that holds the agents with a right.
pub open spec fn right(write: bool) -> Seq<char> {
    if write {
        urls::WRITE@
    } else {
        urls::READ@
    }
}

/// The property to which an agent is added to get a right. The agent has to have an address.
pub fn add_rights(agent: &str, write: bool) -> (r: AtomicResult<&'static str>)
    ensures
        match r {
            Ok(property) => crate::parse::valid_url(agent@) && property@ == right(write),
            Err(e) => !crate::parse::valid_url(agent@) && e@ == crate::parse::bad_url(agent@),
        },
{
    match check_valid_url(agent) {
        Err(e) => Err(e),
        Ok(_) => Ok(
            if write {
                urls::WRITE
            } else {
                urls::READ
            },
        ),
    }
}

/// The agents that have a right, with one more. An agent that has it already is not added again.
pub open spec fn with_right(agents: Seq<Seq<char>>, agent: Seq<char>) -> Seq<Seq<char>> {
    if agents.contains(agent) {
        agents
    } else {
        agents.push(agent)
    }
}

/// An agent that is given a right has it, nobody loses it, and giving it again changes nothing.
pub proof fn giving_a_right_twice_changes_nothing(
    agents: Seq<Seq<char>>,
    agent: Seq<char>,
    other: Seq<char>,
)
    ensures
        with_right(with_right(agents, agent), agent) == with_right(agents, agent),
        with_right(agents, agent).contains(other) <==> agents.contains(other) || other == agent,
{
    let after = with_right(agents, agent);
    if !agents.contains(agent) {
        assert(after[agents.len() as int] == agent);
        if agents.contains(other) {
            assert(after[agents.index_of(other)] == other);
        }
    }
}

/// Adds an agent to those that have a right.
pub fn push_unique(agents: &mut Vec<String>, agent: &str)
    ensures
        crate::text::list(final(agents)@) == with_right(crate::text::list(old(agents)@), agent@),
{
    let ghost before = crate::text::list(agents@);
    match crate::text::position(agents, agent) {
        Some(i) => {
            assert(before[i as int] == agent@);
        },
        None => {
            agents.push(agent.to_owned());
            assert(crate::text::list(agents@) =~= before.push(agent@));
        },
    }
}

/// What is said where the resource with the new rights could not be saved.
pub fn explain_rights(cause: &AtomicError) -> (r: AtomicError)
    ensures
        r@ == crate::errors::other("Unable to save updated target resource. "@ + cause@.message),
{
    AtomicError::in_context("Unable to save updated target resource. ", cause)
}

/// What an invite that is being made is for. Whoever makes it must be allowed to write to it.
pub fn before_apply_commit(target: AtomicResult<String>) -> (r: AtomicResult<String>)
    ensures
        match target {
            Ok(t) => r == Ok::<String, AtomicError>(t),
            Err(_) => r is Err && r->Err_0@ == crate::errors::other(
                "Invite does not have required Target attribute"@,
            ),
        },
{
    match target {
        Ok(t) => Ok(t),
        Err(_) => Err(
            AtomicError::other_error("Invite does not have required Target attribute".to_owned()),
        ),
    }
}

/// The right to write and the right to read are held by different properties of a resource.
pub proof fn rights_are_held_apart(write: bool)
    ensures
        write ==> right(write) == "https://atomicdata.dev/properties/write"@,
        !write ==> right(write) == "https://atomicdata.dev/properties/read"@,
{
}

} // verus!
